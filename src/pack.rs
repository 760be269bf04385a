use vstd::prelude::*;
use vstd::arithmetic::div_mod::lemma_fundamental_div_mod_converse;

use crate::error::AssetError;
use crate::sheet::SpritePosition;

verus! {

/// The largest width or height of a packed sheet, in pixels.
pub const MAX_SHEET_SIDE: u32 = 16384;

/// An image of `width` by `height` pixels, four bytes (red, green, blue,
/// alpha) per pixel, rows from the top.
#[derive(Debug, Clone)]
pub struct RgbaImage {
    pub width: u32,
    pub height: u32,
    pub pixels: Vec<u8>,
}

impl RgbaImage {
    pub open spec fn wf(&self) -> bool {
        self.pixels@.len() == self.width * self.height * 4
    }
}

/// A sheet made of loose images: its size, its pixels, and where each input
/// image stands in it, in input order.
#[derive(Debug, Clone)]
pub struct PackedSheet {
    pub width: u32,
    pub height: u32,
    pub pixels: Vec<u8>,
    pub placements: Vec<SpritePosition>,
}

/// The index of byte `u` of pixel row `y`, in rows of `stride` bytes.
pub open spec fn addr(stride: int, y: int, u: int) -> int {
    y * stride + u
}

/// Byte `q` of a sheet `width` pixels wide lies inside rectangle `p`.
pub open spec fn in_rect(q: int, width: u32, p: SpritePosition) -> bool {
    let row = q / (4 * width as int);
    let u = q % (4 * width as int);
    &&& p.y <= row < p.y + p.height
    &&& 4 * p.x <= u < 4 * (p.x + p.width)
}

/// Byte `q` lies in none of the rectangles.
pub open spec fn uncovered(q: int, width: u32, rects: Seq<SpritePosition>) -> bool {
    forall|i: int| 0 <= i < rects.len() ==> !in_rect(q, width, #[trigger] rects[i])
}

/// The sheet bytes under rectangle `p` are those of `img`.
pub open spec fn holds_image(sheet: Seq<u8>, width: u32, p: SpritePosition, img: RgbaImage) -> bool {
    forall|yy: int, b: int|
        0 <= yy < img.height && 0 <= b < 4 * img.width
            ==> #[trigger] sheet[addr(4 * width as int, p.y + yy, 4 * p.x + b)] == img.pixels@[addr(4 * img.width as int, yy, b)]
}

pub open spec fn fits(p: SpritePosition, width: u32, height: u32) -> bool {
    p.x + p.width <= width && p.y + p.height <= height
}

pub open spec fn disjoint(p: SpritePosition, q: SpritePosition) -> bool {
    p.x + p.width <= q.x || q.x + q.width <= p.x || p.y + p.height <= q.y || q.y + q.height <= p.y
}

/// Where image `i` goes, given the positions the packer chose.
pub open spec fn placement_of(positions: Seq<(u32, u32)>, images: Seq<RgbaImage>, i: int) -> SpritePosition {
    SpritePosition { x: positions[i].0, y: positions[i].1, width: images[i].width, height: images[i].height }
}

/// The positions give each image a place inside a `width` by `height`
/// sheet, and no two images share a pixel.
pub open spec fn layout_ok(width: u32, height: u32, positions: Seq<(u32, u32)>, images: Seq<RgbaImage>) -> bool {
    &&& width <= MAX_SHEET_SIDE
    &&& height <= MAX_SHEET_SIDE
    &&& positions.len() == images.len()
    &&& forall|i: int| 0 <= i < images.len() ==> fits(#[trigger] placement_of(positions, images, i), width, height)
    &&& forall|i: int, j: int| 0 <= i < j < images.len()
        ==> disjoint(#[trigger] placement_of(positions, images, i), #[trigger] placement_of(positions, images, j))
}

/// The bytes of rectangle `p` of a sheet `width` pixels wide, row by row.
pub open spec fn crop_spec(sheet: Seq<u8>, width: u32, p: SpritePosition) -> Seq<u8> {
    let s = 4 * p.width as int;
    Seq::new((p.height * s) as nat, |k: int| sheet[addr(4 * width as int, p.y + k / s, 4 * p.x + k % s)])
}

/// Two byte positions in rows of `stride` bytes coincide only when row and
/// offset do.
proof fn lemma_addr_injective(stride: int, y1: int, u1: int, y2: int, u2: int)
    requires
        0 <= u1 < stride,
        0 <= u2 < stride,
        addr(stride, y1, u1) == addr(stride, y2, u2),
    ensures
        y1 == y2,
        u1 == u2,
{
    lemma_fundamental_div_mod_converse(addr(stride, y1, u1), stride, y1, u1);
    lemma_fundamental_div_mod_converse(addr(stride, y2, u2), stride, y2, u2);
}

/// Cropping a sheet at the rectangle where an image was placed gives back
/// that image's pixels exactly.
pub proof fn lemma_crop_round_trip(sheet: Seq<u8>, width: u32, p: SpritePosition, img: RgbaImage)
    requires
        img.wf(),
        p.width == img.width,
        p.height == img.height,
        holds_image(sheet, width, p, img),
    ensures
        crop_spec(sheet, width, p) == img.pixels@,
{
    let s = 4 * p.width as int;
    let c = crop_spec(sheet, width, p);
    assert(p.height * s == img.width * img.height * 4) by (nonlinear_arith)
        requires s == 4 * p.width, p.width == img.width, p.height == img.height;
    assert forall|k: int| 0 <= k < c.len() implies c[k] == img.pixels@[k] by {
        let yy = k / s;
        let b = k % s;
        assert(s > 0) by (nonlinear_arith)
            requires 0 <= k < p.height * s, s == 4 * p.width;
        vstd::arithmetic::div_mod::lemma_fundamental_div_mod(k, s);
        assert(0 <= yy < img.height) by (nonlinear_arith)
            requires 0 <= k < p.height * s, s > 0, yy == k / s, img.height == p.height, k == s * yy + b, 0 <= b < s;
        assert(k == addr(4 * img.width as int, yy, b)) by (nonlinear_arith)
            requires k == s * yy + b, s == 4 * img.width;
    }
    assert(c =~= img.pixels@);
}

/// Cuts rectangle `p` out of a sheet `width` pixels wide.
pub fn crop(sheet: &Vec<u8>, width: u32, p: SpritePosition) -> (r: Vec<u8>)
    requires
        width <= MAX_SHEET_SIDE,
        p.x + p.width <= width,
        (p.y + p.height) * width * 4 <= sheet@.len(),
    ensures
        r@ == crop_spec(sheet@, width, p),
{
    let n = sheet.len();
    let s = 4 * (p.width as usize);
    let stride = 4 * (width as usize);
    let mut r: Vec<u8> = Vec::new();
    let mut yy: usize = 0;
    while yy < p.height as usize
        invariant
            n == sheet@.len(),
            s == 4 * p.width,
            stride == 4 * width,
            width <= MAX_SHEET_SIDE,
            p.x + p.width <= width,
            (p.y + p.height) * width * 4 <= sheet@.len(),
            yy <= p.height,
            r@ == crop_spec(sheet@, width, p).subrange(0, yy * s),
        decreases p.height - yy,
    {
        let mut b: usize = 0;
        while b < s
            invariant
                n == sheet@.len(),
                s == 4 * p.width,
                stride == 4 * width,
                width <= MAX_SHEET_SIDE,
                p.x + p.width <= width,
                (p.y + p.height) * width * 4 <= sheet@.len(),
                yy < p.height,
                b <= s,
                r@ == crop_spec(sheet@, width, p).subrange(0, yy * s + b),
            decreases s - b,
        {
            proof {
                assert((p.y + yy) * stride + 4 * p.x + b < sheet@.len()) by (nonlinear_arith)
                    requires yy < p.height, b < s, s == 4 * p.width, stride == 4 * width,
                        p.x + p.width <= width, (p.y + p.height) * width * 4 <= sheet@.len();
                assert(p.y + yy < sheet@.len()) by (nonlinear_arith)
                    requires yy < p.height, b < s, s == 4 * p.width, p.x + p.width <= width,
                        (p.y + p.height) * width * 4 <= sheet@.len();
                assert(yy * s + b < p.height * s) by (nonlinear_arith)
                    requires yy < p.height, b < s;
                lemma_fundamental_div_mod_converse(yy * s + b, s as int, yy as int, b as int);
            }
            let q = (p.y as usize + yy) * stride + 4 * (p.x as usize) + b;
            r.push(sheet[q]);
            proof {
                assert(r@ =~= crop_spec(sheet@, width, p).subrange(0, yy * s + b + 1));
            }
            b = b + 1;
        }
        proof {
            assert(yy * s + s == (yy + 1) * s) by (nonlinear_arith);
        }
        yy = yy + 1;
    }
    proof {
        assert(p.height * s == yy * s);
    }
    assert(r@ =~= crop_spec(sheet@, width, p));
    r
}


/// Byte `q` has been painted once rows `0 .. yy` of rectangle `p`, and the
/// first `b` bytes of row `yy`, are done.
pub open spec fn painted(q: int, width: u32, p: SpritePosition, yy: int, b: int) -> bool {
    let row = q / (4 * width as int);
    let u = q % (4 * width as int);
    ||| p.y <= row < p.y + yy && 4 * p.x <= u < 4 * (p.x + p.width)
    ||| row == p.y + yy && 4 * p.x <= u < 4 * p.x + b
}

/// Writing inside one rectangle leaves an image held by a disjoint
/// rectangle in place.
proof fn lemma_write_keeps_other(
    old_sheet: Seq<u8>,
    new_sheet: Seq<u8>,
    width: u32,
    pj: SpritePosition,
    img: RgbaImage,
    pi: SpritePosition,
    yy: int,
    b: int,
    v: u8,
)
    requires
        holds_image(old_sheet, width, pj, img),
        disjoint(pj, pi),
        pj.width == img.width,
        pj.height == img.height,
        pj.x + pj.width <= width,
        pi.x + pi.width <= width,
        0 <= yy < pi.height,
        0 <= b < 4 * pi.width,
        0 <= addr(4 * width as int, pi.y + yy, 4 * pi.x + b) < old_sheet.len(),
        (pj.y + pj.height) * width * 4 <= old_sheet.len(),
        new_sheet == old_sheet.update(addr(4 * width as int, pi.y + yy, 4 * pi.x + b), v),
    ensures
        holds_image(new_sheet, width, pj, img),
{
    let q0 = addr(4 * width as int, pi.y + yy, 4 * pi.x + b);
    assert forall|y2: int, b2: int| 0 <= y2 < img.height && 0 <= b2 < 4 * img.width
        implies #[trigger] new_sheet[addr(4 * width as int, pj.y + y2, 4 * pj.x + b2)] == img.pixels@[addr(4 * img.width as int, y2, b2)] by {
        let q = addr(4 * width as int, pj.y + y2, 4 * pj.x + b2);
        assert(0 <= q < old_sheet.len()) by (nonlinear_arith)
            requires q == addr(4 * width as int, pj.y + y2, 4 * pj.x + b2), 0 <= y2 < pj.height, 0 <= b2 < 4 * pj.width,
                pj.x + pj.width <= width, (pj.y + pj.height) * width * 4 <= old_sheet.len();
        assert(old_sheet[q] == img.pixels@[addr(4 * img.width as int, y2, b2)]);
        if q == q0 {
            lemma_addr_injective(4 * width as int, pj.y + y2, 4 * pj.x + b2, pi.y + yy, 4 * pi.x + b);
        }
    }
}

/// Checks a layout: within the size limit and the sheet, one position per
/// image, and no overlap.
fn check_layout(images: &Vec<RgbaImage>, width: u32, height: u32, positions: &Vec<(u32, u32)>) -> (r: bool)
    ensures
        r == layout_ok(width, height, positions@, images@),
{
    if width > MAX_SHEET_SIDE || height > MAX_SHEET_SIDE || positions.len() != images.len() {
        return false;
    }
    let n = images.len();
    let mut i: usize = 0;
    while i < n
        invariant
            n == images@.len(),
            n == positions@.len(),
            i <= n,
            forall|k: int| 0 <= k < i ==> fits(#[trigger] placement_of(positions@, images@, k), width, height),
        decreases n - i,
    {
        let (x, y) = positions[i];
        if x as u64 + images[i].width as u64 > width as u64 || y as u64 + images[i].height as u64 > height as u64 {
            assert(!fits(placement_of(positions@, images@, i as int), width, height));
            return false;
        }
        i = i + 1;
    }
    let mut i: usize = 0;
    while i < n
        invariant
            n == images@.len(),
            n == positions@.len(),
            i <= n,
            forall|a: int, c: int| 0 <= a < c < n && a < i
                ==> disjoint(#[trigger] placement_of(positions@, images@, a), #[trigger] placement_of(positions@, images@, c)),
        decreases n - i,
    {
        let mut j: usize = i + 1;
        while j < n
            invariant
                n == images@.len(),
                n == positions@.len(),
                i < n,
                i + 1 <= j <= n,
                forall|a: int, c: int| 0 <= a < c < n && a < i
                    ==> disjoint(#[trigger] placement_of(positions@, images@, a), #[trigger] placement_of(positions@, images@, c)),
                forall|c: int| i < c < j
                    ==> disjoint(#[trigger] placement_of(positions@, images@, i as int), placement_of(positions@, images@, c)),
            decreases n - j,
        {
            let (xa, ya) = positions[i];
            let (xc, yc) = positions[j];
            let wa = images[i].width as u64;
            let ha = images[i].height as u64;
            let wc = images[j].width as u64;
            let hc = images[j].height as u64;
            let apart = xa as u64 + wa <= xc as u64 || xc as u64 + wc <= xa as u64
                || ya as u64 + ha <= yc as u64 || yc as u64 + hc <= ya as u64;
            if !apart {
                assert(!disjoint(placement_of(positions@, images@, i as int), placement_of(positions@, images@, j as int)));
                return false;
            }
            j = j + 1;
        }
        i = i + 1;
    }
    true
}

/// Paints each image at its position on a sheet of `width` by `height`
/// transparent pixels. Fails with `PackingOverflow` unless the layout keeps
/// every image inside a sheet within the size limit, without overlap.
pub fn place_images(images: &Vec<RgbaImage>, width: u32, height: u32, positions: &Vec<(u32, u32)>)
    -> (r: Result<PackedSheet, AssetError>)
    requires
        forall|i: int| 0 <= i < images@.len() ==> (#[trigger] images@[i]).wf(),
    ensures
        r is Ok <==> layout_ok(width, height, positions@, images@),
        r is Err ==> r == Err::<PackedSheet, AssetError>(AssetError::PackingOverflow),
        r matches Ok(p) ==> p.width == width && p.height == height,
        r matches Ok(p) ==> p.pixels@.len() == width * height * 4,
        r matches Ok(p) ==> p.placements@.len() == images@.len(),
        r matches Ok(p) ==> forall|i: int| 0 <= i < images@.len() ==> #[trigger] p.placements@[i] == placement_of(positions@, images@, i),
        r matches Ok(p) ==> forall|i: int| 0 <= i < images@.len() ==> holds_image(p.pixels@, width, #[trigger] p.placements@[i], images@[i]),
        r matches Ok(p) ==> forall|q: int| 0 <= q < p.pixels@.len() && uncovered(q, width, p.placements@)
            ==> #[trigger] p.pixels@[q] == 0,
{
    if !check_layout(images, width, height, positions) {
        return Err(AssetError::PackingOverflow);
    }
    let n = images.len();
    let stride = 4 * (width as usize);
    proof {
        assert(width * height * 4 <= 0x4000_0000) by (nonlinear_arith)
            requires width <= MAX_SHEET_SIDE, height <= MAX_SHEET_SIDE;
    }
    let total = (width as usize) * (height as usize) * 4;
    let mut buf: Vec<u8> = Vec::new();
    while buf.len() < total
        invariant
            total == width * height * 4,
            buf@.len() <= total,
            forall|q: int| 0 <= q < buf@.len() ==> buf@[q] == 0,
        decreases total - buf@.len(),
    {
        buf.push(0);
    }
    let mut placements: Vec<SpritePosition> = Vec::new();
    let mut i: usize = 0;
    while i < n
        invariant
            n == images@.len(),
            layout_ok(width, height, positions@, images@),
            forall|k: int| 0 <= k < images@.len() ==> (#[trigger] images@[k]).wf(),
            stride == 4 * width,
            total == width * height * 4,
            buf@.len() == total,
            i <= n,
            placements@.len() == i,
            forall|k: int| 0 <= k < i ==> #[trigger] placements@[k] == placement_of(positions@, images@, k),
            forall|k: int| 0 <= k < i ==> holds_image(buf@, width, #[trigger] placements@[k], images@[k]),
            forall|q: int| 0 <= q < total && uncovered(q, width, placements@)
                ==> buf@[q] == 0,
        decreases n - i,
    {
        let img = &images[i];
        let (x, y) = positions[i];
        let p = SpritePosition { x, y, width: img.width, height: img.height };
        assert(p == placement_of(positions@, images@, i as int));
        assert(fits(placement_of(positions@, images@, i as int), width, height));
        let plen = img.pixels.len();
        let s = 4 * (img.width as usize);
        let mut yy: usize = 0;
        while yy < img.height as usize
            invariant
                n == images@.len(),
                i < n,
                layout_ok(width, height, positions@, images@),
                forall|k: int| 0 <= k < images@.len() ==> (#[trigger] images@[k]).wf(),
                *img == images@[i as int],
                plen == img.pixels@.len(),
                p == placement_of(positions@, images@, i as int),
                s == 4 * img.width,
                stride == 4 * width,
                total == width * height * 4,
                buf@.len() == total,
                placements@.len() == i,
                yy <= img.height,
                forall|k: int| 0 <= k < i ==> #[trigger] placements@[k] == placement_of(positions@, images@, k),
                forall|k: int| 0 <= k < i ==> holds_image(buf@, width, #[trigger] placements@[k], images@[k]),
                forall|q: int| 0 <= q < total && uncovered(q, width, placements@)
                    && !painted(q, width, p, yy as int, 0) ==> buf@[q] == 0,
                forall|y2: int, b2: int| 0 <= y2 < yy && 0 <= b2 < s
                    ==> #[trigger] buf@[addr(4 * width as int, p.y + y2, 4 * p.x + b2)] == img.pixels@[addr(s as int, y2, b2)],
            decreases img.height - yy,
        {
            let mut b: usize = 0;
            while b < s
                invariant
                    n == images@.len(),
                    i < n,
                    layout_ok(width, height, positions@, images@),
                    forall|k: int| 0 <= k < images@.len() ==> (#[trigger] images@[k]).wf(),
                    *img == images@[i as int],
                    plen == img.pixels@.len(),
                    p == placement_of(positions@, images@, i as int),
                    s == 4 * img.width,
                    stride == 4 * width,
                    total == width * height * 4,
                    buf@.len() == total,
                    placements@.len() == i,
                    yy < img.height,
                    b <= s,
                    forall|k: int| 0 <= k < i ==> #[trigger] placements@[k] == placement_of(positions@, images@, k),
                    forall|k: int| 0 <= k < i ==> holds_image(buf@, width, #[trigger] placements@[k], images@[k]),
                    forall|q: int| 0 <= q < total && uncovered(q, width, placements@)
                        && !painted(q, width, p, yy as int, b as int) ==> buf@[q] == 0,
                    forall|y2: int, b2: int| 0 <= y2 < yy && 0 <= b2 < s
                        ==> #[trigger] buf@[addr(4 * width as int, p.y + y2, 4 * p.x + b2)] == img.pixels@[addr(s as int, y2, b2)],
                    forall|b2: int| 0 <= b2 < b
                        ==> #[trigger] buf@[addr(4 * width as int, p.y + yy, 4 * p.x + b2)] == img.pixels@[addr(s as int, yy as int, b2)],
                decreases s - b,
            {
                let ghost before = buf@;
                let ghost q0 = addr(4 * width as int, p.y + yy, 4 * p.x + b);
                proof {
                    assert(p.x + p.width <= width && p.y + p.height <= height);
                    assert(q0 < total && (p.y + yy) * stride + 4 * p.x + b == q0) by (nonlinear_arith)
                        requires q0 == addr(4 * width as int, p.y + yy, 4 * p.x + b), yy < p.height, b < s,
                            s == 4 * p.width, stride == 4 * width, p.x + p.width <= width, p.y + p.height <= height,
                            total == width * height * 4;
                    assert(yy * s + b < img.pixels@.len()) by (nonlinear_arith)
                        requires yy < img.height, b < s, s == 4 * img.width, img.pixels@.len() == img.width * img.height * 4;
                    assert(p.y + yy <= q0) by (nonlinear_arith)
                        requires q0 == (p.y + yy) * stride + 4 * p.x + b, b < s, s == 4 * p.width, stride == 4 * width, p.x + p.width <= width;
                    lemma_fundamental_div_mod_converse(q0, 4 * width as int, p.y + yy, 4 * p.x + b);
                }
                let q = (p.y as usize + yy) * stride + 4 * (p.x as usize) + b;
                let v = img.pixels[yy * s + b];
                buf.set(q, v);
                proof {
                    assert forall|k: int| 0 <= k < i implies holds_image(buf@, width, #[trigger] placements@[k], images@[k]) by {
                        assert(disjoint(placement_of(positions@, images@, k), placement_of(positions@, images@, i as int)));
                        assert((placements@[k].y + placements@[k].height) * width * 4 <= total) by (nonlinear_arith)
                            requires placements@[k].y + placements@[k].height <= height, total == width * height * 4;
                        lemma_write_keeps_other(before, buf@, width, placements@[k], images@[k], p, yy as int, b as int, v);
                    }
                    assert forall|y2: int, b2: int| 0 <= y2 < yy && 0 <= b2 < s
                        implies #[trigger] buf@[addr(4 * width as int, p.y + y2, 4 * p.x + b2)] == img.pixels@[addr(s as int, y2, b2)] by {
                        assert(before[addr(4 * width as int, p.y + y2, 4 * p.x + b2)] == img.pixels@[addr(s as int, y2, b2)]);
                        assert(addr(4 * width as int, p.y + y2, 4 * p.x + b2) < total) by (nonlinear_arith)
                            requires y2 < yy, yy < p.height, b2 < s, s == 4 * p.width, p.x + p.width <= width,
                                p.y + p.height <= height, total == width * height * 4, 0 <= y2, 0 <= b2;
                        if addr(4 * width as int, p.y + y2, 4 * p.x + b2) == q0 {
                            lemma_addr_injective(4 * width as int, p.y + y2, 4 * p.x + b2, p.y + yy, 4 * p.x + b);
                        }
                    }
                    assert forall|b2: int| 0 <= b2 < b + 1
                        implies #[trigger] buf@[addr(4 * width as int, p.y + yy, 4 * p.x + b2)] == img.pixels@[addr(s as int, yy as int, b2)] by {
                        if b2 < b {
                            assert(before[addr(4 * width as int, p.y + yy, 4 * p.x + b2)] == img.pixels@[addr(s as int, yy as int, b2)]);
                            assert(addr(4 * width as int, p.y + yy, 4 * p.x + b2) < total) by (nonlinear_arith)
                                requires yy < p.height, b2 < s, s == 4 * p.width, p.x + p.width <= width,
                                    p.y + p.height <= height, total == width * height * 4, 0 <= b2;
                            if addr(4 * width as int, p.y + yy, 4 * p.x + b2) == q0 {
                                lemma_addr_injective(4 * width as int, p.y + yy, 4 * p.x + b2, p.y + yy, 4 * p.x + b);
                            }
                        }
                    }
                    assert forall|q: int| 0 <= q < total && uncovered(q, width, placements@)
                        && !painted(q, width, p, yy as int, b + 1) implies buf@[q] == 0 by {
                        if q != q0 {
                            assert(!painted(q, width, p, yy as int, b as int));
                        }
                    }
                }
                b = b + 1;
            }
            proof {
                assert forall|q: int| 0 <= q < total && uncovered(q, width, placements@)
                    && !painted(q, width, p, yy + 1, 0) implies buf@[q] == 0 by {
                    assert(!painted(q, width, p, yy as int, b as int));
                }
                assert forall|y2: int, b2: int| 0 <= y2 < yy + 1 && 0 <= b2 < s
                    implies #[trigger] buf@[addr(4 * width as int, p.y + y2, 4 * p.x + b2)] == img.pixels@[addr(s as int, y2, b2)] by {
                    if y2 == yy {
                        assert(buf@[addr(4 * width as int, p.y + yy, 4 * p.x + b2)] == img.pixels@[addr(s as int, yy as int, b2)]);
                    }
                }
            }
            yy = yy + 1;
        }
        let ghost old_pl = placements@;
        placements.push(p);
        proof {
            assert(placements@ == old_pl.push(p));
            assert(holds_image(buf@, width, p, *img));
            assert forall|k: int| 0 <= k < i + 1 implies holds_image(buf@, width, #[trigger] placements@[k], images@[k]) by {
                if k < i {
                    assert(holds_image(buf@, width, placements@[k], images@[k]));
                }
            }
            assert forall|q: int| 0 <= q < total && uncovered(q, width, placements@)
                implies buf@[q] == 0 by {
                assert(!in_rect(q, width, placements@[i as int]));
                assert(!painted(q, width, p, yy as int, 0));
                assert(uncovered(q, width, old_pl)) by {
                    assert forall|k: int| 0 <= k < old_pl.len() implies !in_rect(q, width, #[trigger] old_pl[k]) by {
                        assert(old_pl[k] == placements@[k]);
                    }
                }
            }
        }
        i = i + 1;
    }
    Ok(PackedSheet { width, height, pixels: buf, placements })
}


/// The sheet size and the sprite positions, in input order, that sheep's
/// simple packer picks for sprites of the given sizes.
pub uninterp spec fn simple_pack_of(sizes: Seq<(u32, u32)>) -> (u32, u32, Seq<(u32, u32)>);

pub open spec fn total_width(sizes: Seq<(u32, u32)>) -> int
    decreases sizes.len(),
{
    if sizes.len() == 0 { 0 } else { total_width(sizes.drop_last()) + sizes.last().0 }
}

pub open spec fn total_height(sizes: Seq<(u32, u32)>) -> int
    decreases sizes.len(),
{
    if sizes.len() == 0 { 0 } else { total_height(sizes.drop_last()) + sizes.last().1 }
}

/// The sizes are small enough that no coordinate the packer computes can
/// pass the sheet size limit.
pub open spec fn sizes_fit(sizes: Seq<(u32, u32)>) -> bool {
    total_width(sizes) <= MAX_SHEET_SIDE && total_height(sizes) <= MAX_SHEET_SIDE
}

pub open spec fn sizes_of(images: Seq<RgbaImage>) -> Seq<(u32, u32)> {
    Seq::new(images.len(), |i: int| (images[i].width, images[i].height))
}

/// Relies on sheep 0.2's `SimplePacker::pack`: given sprites with ids
/// `0 .. n`, it returns one sheet whose anchors, sorted by id, hold one
/// position per sprite; the result depends on the sizes alone. Every
/// coordinate it computes is a sum of some of the widths or heights, so
/// within the bound its `u32` and `u64` arithmetic does not overflow.
#[verifier::external_body]
fn simple_pack(sizes: &Vec<(u32, u32)>) -> (r: (u32, u32, Vec<(u32, u32)>))
    requires
        sizes_fit(sizes@),
    ensures
        (r.0, r.1, r.2@) == simple_pack_of(sizes@),
        r.2@.len() == sizes@.len(),
{
    let data: Vec<sheep::SpriteData> = sizes.iter().enumerate().map(|(i, d)| sheep::SpriteData::new(i, *d)).collect();
    let sheets = <sheep::SimplePacker as sheep::Packer>::pack(&data, ());
    let sheet = &sheets[0];
    (sheet.dimensions.0, sheet.dimensions.1, sheet.anchors.iter().map(|a| a.position).collect())
}

/// The pixels of a packed sheet: each image under its rectangle, every
/// other byte zero (transparent).
pub open spec fn sheet_pixels_ok(pixels: Seq<u8>, width: u32, height: u32, placements: Seq<SpritePosition>, images: Seq<RgbaImage>) -> bool {
    &&& pixels.len() == width * height * 4
    &&& placements.len() == images.len()
    &&& forall|i: int| 0 <= i < images.len() ==> holds_image(pixels, width, #[trigger] placements[i], images[i])
    &&& forall|q: int| 0 <= q < pixels.len() && uncovered(q, width, placements) ==> #[trigger] pixels[q] == 0
}

/// Packs loose images into one sheet: sheep's simple packer picks the
/// layout, then each image is painted at its place. Fails with
/// `PackingOverflow` when the images are too large in total, or when the
/// layout would not keep them apart inside the size limit.
pub fn pack_images(images: &Vec<RgbaImage>) -> (r: Result<PackedSheet, AssetError>)
    requires
        forall|i: int| 0 <= i < images@.len() ==> (#[trigger] images@[i]).wf(),
    ensures
        ({
            let (w, h, pos) = simple_pack_of(sizes_of(images@));
            r is Ok <==> sizes_fit(sizes_of(images@)) && layout_ok(w, h, pos, images@)
        }),
        r is Err ==> r == Err::<PackedSheet, AssetError>(AssetError::PackingOverflow),
        r matches Ok(p) ==> {
            let (w, h, pos) = simple_pack_of(sizes_of(images@));
            &&& p.width == w
            &&& p.height == h
            &&& p.placements@ == Seq::new(images@.len(), |i: int| placement_of(pos, images@, i))
            &&& sheet_pixels_ok(p.pixels@, w, h, p.placements@, images@)
        },
{
    let n = images.len();
    let mut sizes: Vec<(u32, u32)> = Vec::new();
    let mut sum_w: u64 = 0;
    let mut sum_h: u64 = 0;
    let mut i: usize = 0;
    while i < n
        invariant
            n == images@.len(),
            i <= n,
            sizes@ == sizes_of(images@).subrange(0, i as int),
            sum_w == total_width(sizes@),
            sum_h == total_height(sizes@),
            sum_w <= MAX_SHEET_SIDE,
            sum_h <= MAX_SHEET_SIDE,
        decreases n - i,
    {
        let ghost before = sizes@;
        sizes.push((images[i].width, images[i].height));
        assert(sizes@.drop_last() == before);
        sum_w = sum_w + images[i].width as u64;
        sum_h = sum_h + images[i].height as u64;
        if sum_w > MAX_SHEET_SIDE as u64 || sum_h > MAX_SHEET_SIDE as u64 {
            proof {
                lemma_totals_grow(sizes_of(images@), i + 1);
                assert(sizes@ =~= sizes_of(images@).subrange(0, i + 1));
            }
            return Err(AssetError::PackingOverflow);
        }
        assert(sizes@ =~= sizes_of(images@).subrange(0, i + 1));
        i = i + 1;
    }
    assert(sizes@ =~= sizes_of(images@));
    let (w, h, pos) = simple_pack(&sizes);
    let r = place_images(images, w, h, &pos);
    proof {
        if r is Ok {
            assert(r->Ok_0.placements@ =~= Seq::new(images@.len(), |i: int| placement_of(pos@, images@, i)));
        }
    }
    r
}

/// Totals over a prefix never exceed totals over the whole.
proof fn lemma_totals_grow(sizes: Seq<(u32, u32)>, k: int)
    requires
        0 <= k <= sizes.len(),
    ensures
        total_width(sizes.subrange(0, k)) <= total_width(sizes),
        total_height(sizes.subrange(0, k)) <= total_height(sizes),
    decreases sizes.len() - k,
{
    if k < sizes.len() {
        lemma_totals_grow(sizes.drop_last(), k);
        assert(sizes.drop_last().subrange(0, k) == sizes.subrange(0, k));
    } else {
        assert(sizes.subrange(0, k) == sizes);
    }
}


/// The pixels of a packed sheet are fully determined by the layout and the
/// images: two pixel buffers that both satisfy `sheet_pixels_ok` for the
/// same layout are equal. So packing the same images twice yields the same
/// sheet bytes.
pub proof fn lemma_sheet_pixels_unique(
    px1: Seq<u8>,
    px2: Seq<u8>,
    width: u32,
    height: u32,
    placements: Seq<SpritePosition>,
    images: Seq<RgbaImage>,
)
    requires
        sheet_pixels_ok(px1, width, height, placements, images),
        sheet_pixels_ok(px2, width, height, placements, images),
        forall|i: int| 0 <= i < images.len() ==> (#[trigger] placements[i]).width == images[i].width
            && placements[i].height == images[i].height,
    ensures
        px1 == px2,
{
    assert forall|q: int| 0 <= q < px1.len() implies px1[q] == px2[q] by {
        if !uncovered(q, width, placements) {
            let i = choose|i: int| 0 <= i < placements.len() && in_rect(q, width, #[trigger] placements[i]);
            let p = placements[i];
            let s = 4 * width as int;
            assert(s > 0) by (nonlinear_arith)
                requires 0 <= q < px1.len(), px1.len() == width * height * 4, s == 4 * width;
            vstd::arithmetic::div_mod::lemma_fundamental_div_mod(q, s);
            let yy = q / s - p.y;
            let b = q % s - 4 * p.x;
            assert(q == addr(s, p.y + yy, 4 * p.x + b)) by (nonlinear_arith)
                requires q == s * (q / s) + q % s, yy == q / s - p.y, b == q % s - 4 * p.x;
            assert(px1[addr(s, p.y + yy, 4 * p.x + b)] == images[i].pixels@[addr(4 * images[i].width as int, yy, b)]);
            assert(px2[addr(s, p.y + yy, 4 * p.x + b)] == images[i].pixels@[addr(4 * images[i].width as int, yy, b)]);
        }
    }
    assert(px1 =~= px2);
}

} // verus!
