use vstd::prelude::*;

verus! {

/// Everything that can abort a compilation run.
#[derive(Debug, Clone, Copy, PartialEq, Eq, Structural)]
pub enum AssetError {
    /// The map description is malformed (for instance, tilesets out of order).
    MapParse,
    /// A file that the map refers to does not exist.
    MissingImage,
    /// Pixel data could not be decoded, converted or encoded.
    ImageDecode,
    /// A tile identifier lies outside every tileset's range.
    InvalidGid,
    /// The packer could not place the images inside one sheet.
    PackingOverflow,
    /// An object's shape does not suit its type.
    UnsupportedShape,
    /// A read or write on the file system failed.
    Io,
}

} // verus!
