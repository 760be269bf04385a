//! Compiles a tile map (tile layers plus placed objects) into packed sprite
//! sheets and a list of scene entities for a sprite-based engine.

pub mod coords;
pub mod error;
pub mod gid;
pub mod map;
pub mod output;
pub mod pack;
pub mod scene;
pub mod sheet;
pub mod tileset;

pub use coords::{tile_to_world, WorldPos};
pub use error::AssetError;
pub use gid::{GidRange, GidTable};
pub use sheet::{grid_sprites, SpritePosition};
pub use output::{output_files, MapFile, SheetFile};
pub use scene::{
    assemble_entities, mark_first_uses, object_kind, Detail, MapObject, ObjectKind, Placement, PrefabEntity,
    SpriteContext, SpriteRenderPrefab,
};
pub use pack::{crop, pack_images, place_images, PackedSheet, RgbaImage, MAX_SHEET_SIDE};
pub use tileset::{sprite_sheets_from_tilesets, SpriteSheetPrefab, TilesetDesc, TilesetImages};
pub use map::{MapDesc, MapPrefab};
