//! Pixel format conversions: BGRA to RGB, RGB to planar YUV 4:2:0 and back,
//! RGBA to packed ARGB.
//!
//! The YUV conversions use the BT.601 integer matrices. A division here is
//! the one of mathematics, rounding down, which is what an arithmetic shift
//! to the right computes.

use vstd::prelude::*;

verus! {

/// `x` limited to the range of a byte.
pub open spec fn clamp_u8(x: int) -> u8 {
    if x < 0 {
        0
    } else if x > 255 {
        255
    } else {
        x as u8
    }
}

pub open spec fn luma(r: int, g: int, b: int) -> int {
    (66 * r + 129 * g + 25 * b + 128) / 256 + 16
}

pub open spec fn chroma_u(r: int, g: int, b: int) -> int {
    (-38 * r - 74 * g + 112 * b + 128) / 256 + 128
}

pub open spec fn chroma_v(r: int, g: int, b: int) -> int {
    (112 * r - 94 * g - 18 * b + 128) / 256 + 128
}

/// The ranges of the BT.601 components of any colour: luma stays within 16
/// to 235, both chroma components within 16 to 240, so limiting them to a
/// byte changes none.
pub proof fn lemma_yuv_ranges(r: int, g: int, b: int)
    requires
        0 <= r <= 255,
        0 <= g <= 255,
        0 <= b <= 255,
    ensures
        16 <= luma(r, g, b) <= 235,
        16 <= chroma_u(r, g, b) <= 240,
        16 <= chroma_v(r, g, b) <= 240,
        clamp_u8(luma(r, g, b)) == luma(r, g, b),
        clamp_u8(chroma_u(r, g, b)) == chroma_u(r, g, b),
        clamp_u8(chroma_v(r, g, b)) == chroma_v(r, g, b),
{
}

/// The RGB buffer holds the pixel in row `y`, column `x` of a picture
/// `width` wide and `height` high.
pub open spec fn has_pixel(rgb: Seq<u8>, width: int, height: int, y: int, x: int) -> bool {
    0 <= y < height && 0 <= x < width && (y * width + x) * 3 + 2 < rgb.len()
}

/// Component `c` (0 red, 1 green, 2 blue) of the pixel in row `y`, column
/// `x`, or 0 where the buffer does not hold the pixel.
pub open spec fn channel(rgb: Seq<u8>, width: int, height: int, y: int, x: int, c: int) -> int {
    if has_pixel(rgb, width, height, y, x) {
        rgb[(y * width + x) * 3 + c] as int
    } else {
        0
    }
}

/// A quarter of the sum of component `c` over the two-by-two block in block
/// row `by`, block column `bx`: the block's mean, where the buffer holds all
/// four pixels.
pub open spec fn block_mean(rgb: Seq<u8>, width: int, height: int, by: int, bx: int, c: int) -> int {
    (channel(rgb, width, height, 2 * by, 2 * bx, c) + channel(
        rgb,
        width,
        height,
        2 * by,
        2 * bx + 1,
        c,
    ) + channel(rgb, width, height, 2 * by + 1, 2 * bx, c) + channel(
        rgb,
        width,
        height,
        2 * by + 1,
        2 * bx + 1,
        c,
    )) / 4
}

/// The block whose chroma stands at index `k` of a chroma plane, if one
/// does.
///
/// Block `(by, bx)` belongs at index `by * (width / 2) + bx`. With an even
/// width every index below `(width / 2) * ceil(height / 2)` has one block.
/// With an odd width the half block at the end of a row shares its index with
/// the first block of the next row, which takes the place; only behind the
/// last row the half block stays.
pub open spec fn chroma_block(width: int, height: int, k: int) -> Option<(int, int)> {
    let half = width / 2;
    let rows = (height + 1) / 2;
    if width <= 0 || rows <= 0 || k < 0 {
        None
    } else if half == 0 {
        if k == 0 {
            Some((rows - 1, 0))
        } else {
            None
        }
    } else if k / half < rows {
        Some((k / half, k % half))
    } else if width % 2 == 1 && k == rows * half {
        Some((rows - 1, half))
    } else {
        None
    }
}

/// Byte `p` of the planar YUV 4:2:0 picture made of `rgb`: the luma plane
/// (`width * height` bytes), then the U plane and the V plane (a quarter of
/// that each). A byte that no pixel of `rgb` reaches keeps its value in
/// `prev`.
pub open spec fn yuv420_at(prev: Seq<u8>, rgb: Seq<u8>, width: int, height: int, p: int) -> u8 {
    let y_size = width * height;
    let uv_size = y_size / 4;
    if 0 <= p < y_size {
        if p * 3 + 2 < rgb.len() {
            clamp_u8(luma(rgb[p * 3] as int, rgb[p * 3 + 1] as int, rgb[p * 3 + 2] as int))
        } else {
            prev[p]
        }
    } else if y_size <= p < y_size + 2 * uv_size {
        let first = p < y_size + uv_size;
        let k = if first {
            p - y_size
        } else {
            p - y_size - uv_size
        };
        match chroma_block(width, height, k) {
            Some((by, bx)) => {
                let r = block_mean(rgb, width, height, by, bx, 0);
                let g = block_mean(rgb, width, height, by, bx, 1);
                let b = block_mean(rgb, width, height, by, bx, 2);
                if first {
                    clamp_u8(chroma_u(r, g, b))
                } else {
                    clamp_u8(chroma_v(r, g, b))
                }
            },
            None => prev[p],
        }
    } else {
        prev[p]
    }
}

/// The planar YUV 4:2:0 picture made of `rgb`, written over `prev`.
pub open spec fn yuv420(prev: Seq<u8>, rgb: Seq<u8>, width: int, height: int) -> Seq<u8> {
    Seq::new(prev.len(), |p: int| yuv420_at(prev, rgb, width, height, p))
}

/// The size of a planar YUV 4:2:0 picture.
pub open spec fn yuv420_len(width: int, height: int) -> int {
    width * height + 2 * (width * height / 4)
}

fn luma_byte(r: u8, g: u8, b: u8) -> (y: u8)
    ensures
        y == clamp_u8(luma(r as int, g as int, b as int)),
{
    let v: u32 = (66 * (r as u32) + 129 * (g as u32) + 25 * (b as u32) + 128) / 256 + 16;
    if v > 255 {
        255
    } else {
        v as u8
    }
}

fn chroma_bytes(r: u32, g: u32, b: u32) -> (uv: (u8, u8))
    requires
        r <= 255,
        g <= 255,
        b <= 255,
    ensures
        uv.0 == clamp_u8(chroma_u(r as int, g as int, b as int)),
        uv.1 == clamp_u8(chroma_v(r as int, g as int, b as int)),
{
    // 32896 = 128 * 256 + 128 keeps both sums above zero.
    let u: u32 = (32896 + 112 * b - 38 * r - 74 * g) / 256;
    let v: u32 = (32896 + 112 * r - 94 * g - 18 * b) / 256;
    assert(u == chroma_u(r as int, g as int, b as int));
    assert(v == chroma_v(r as int, g as int, b as int));
    (
        if u > 255 {
            255
        } else {
            u as u8
        },
        if v > 255 {
            255
        } else {
            v as u8
        },
    )
}

/// Component `c` of the pixel in row `y`, column `x`, or 0.
fn pixel_channel(rgb: &[u8], width: usize, height: usize, y: usize, x: usize, c: usize) -> (v: u32)
    requires
        c < 3,
        width * height <= usize::MAX,
    ensures
        v == channel(rgb@, width as int, height as int, y as int, x as int, c as int),
        v <= 255,
{
    if y < height && x < width {
        assert(y * width + x < width * height) by (nonlinear_arith)
            requires
                y < height,
                x < width,
        ;
        let p: usize = y * width + x;
        if p < rgb.len() / 3 {
            rgb[p * 3 + c] as u32
        } else {
            0
        }
    } else {
        0
    }
}

fn block_channel(rgb: &[u8], width: usize, height: usize, by: usize, bx: usize, c: usize) -> (v:
    u32)
    requires
        c < 3,
        width * height <= usize::MAX,
        2 * by + 1 <= usize::MAX,
        2 * bx + 1 <= usize::MAX,
    ensures
        v == block_mean(rgb@, width as int, height as int, by as int, bx as int, c as int),
        v <= 255,
{
    let sum: u32 = pixel_channel(rgb, width, height, 2 * by, 2 * bx, c) + pixel_channel(
        rgb,
        width,
        height,
        2 * by,
        2 * bx + 1,
        c,
    ) + pixel_channel(rgb, width, height, 2 * by + 1, 2 * bx, c) + pixel_channel(
        rgb,
        width,
        height,
        2 * by + 1,
        2 * bx + 1,
        c,
    );
    sum / 4
}

/// The block whose chroma stands at index `k`, if one does.
fn find_chroma_block(width: usize, height: usize, k: usize) -> (block: Option<(usize, usize)>)
    requires
        width * height <= usize::MAX,
    ensures
        match block {
            Some((by, bx)) => chroma_block(width as int, height as int, k as int) == Some(
                (by as int, bx as int),
            ) && 2 * by + 1 <= usize::MAX && 2 * bx + 1 <= usize::MAX,
            None => chroma_block(width as int, height as int, k as int) is None,
        },
{
    let half: usize = width / 2;
    let rows: usize = height / 2 + height % 2;
    if width == 0 || rows == 0 {
        None
    } else if half == 0 {
        if k == 0 {
            Some((rows - 1, 0))
        } else {
            None
        }
    } else if k / half < rows {
        Some((k / half, k % half))
    } else if width % 2 == 1 && k / half == rows && k % half == 0 {
        assert(k == rows * half) by (nonlinear_arith)
            requires
                half > 0,
                k / half == rows,
                k % half == 0,
        ;
        Some((rows - 1, half))
    } else {
        assert(k != rows * half || width % 2 != 1) by (nonlinear_arith)
            requires
                half > 0,
                !(width % 2 == 1 && k / half == rows && k % half == 0),
        ;
        None
    }
}

/// Converts packed RGB to planar YUV 4:2:0 over the buffer `yuv`, which has
/// the size of the picture. Chroma is taken from the mean of each two-by-two
/// block.
pub fn write_yuv420(rgb: &[u8], width: usize, height: usize, yuv: &mut Vec<u8>)
    requires
        old(yuv).len() == yuv420_len(width as int, height as int),
    ensures
        final(yuv)@ == yuv420(old(yuv)@, rgb@, width as int, height as int),
{
    assert(width * height <= usize::MAX) by (nonlinear_arith)
        requires
            width * height + 2 * (width * height / 4) <= usize::MAX,
    ;
    let y_size: usize = width * height;
    let uv_size: usize = y_size / 4;
    let held: usize = rgb.len() / 3;
    let luma_end: usize = if held < y_size {
        held
    } else {
        y_size
    };
    let ghost prev = yuv@;
    let mut p: usize = 0;
    while p < luma_end
        invariant
            p <= luma_end <= y_size,
            luma_end <= held,
            held == rgb.len() / 3,
            y_size == width * height,
            yuv.len() == prev.len(),
            prev.len() == y_size + 2 * (y_size / 4),
            forall|q: int|
                0 <= q < p ==> yuv@[q] == yuv420_at(prev, rgb@, width as int, height as int, q),
            forall|q: int| p <= q < yuv.len() ==> yuv@[q] == prev[q],
        decreases luma_end - p,
    {
        let v: u8 = luma_byte(rgb[p * 3], rgb[p * 3 + 1], rgb[p * 3 + 2]);
        yuv.set(p, v);
        p = p + 1;
    }
    let mut k: usize = 0;
    while k < uv_size
        invariant
            k <= uv_size,
            uv_size == y_size / 4,
            y_size == width * height,
            luma_end <= y_size,
            luma_end == if rgb.len() / 3 < y_size {
                rgb.len() / 3
            } else {
                y_size
            },
            yuv.len() == prev.len(),
            prev.len() == y_size + 2 * uv_size,
            forall|q: int|
                0 <= q < luma_end ==> yuv@[q] == yuv420_at(
                    prev,
                    rgb@,
                    width as int,
                    height as int,
                    q,
                ),
            forall|q: int| luma_end <= q < y_size ==> yuv@[q] == prev[q],
            forall|q: int|
                y_size <= q < y_size + k ==> yuv@[q] == yuv420_at(
                    prev,
                    rgb@,
                    width as int,
                    height as int,
                    q,
                ),
            forall|q: int|
                y_size + uv_size <= q < y_size + uv_size + k ==> yuv@[q] == yuv420_at(
                    prev,
                    rgb@,
                    width as int,
                    height as int,
                    q,
                ),
            forall|q: int| y_size + k <= q < y_size + uv_size ==> yuv@[q] == prev[q],
            forall|q: int| y_size + uv_size + k <= q < yuv.len() ==> yuv@[q] == prev[q],
        decreases uv_size - k,
    {
        match find_chroma_block(width, height, k) {
            Some((by, bx)) => {
                let r: u32 = block_channel(rgb, width, height, by, bx, 0);
                let g: u32 = block_channel(rgb, width, height, by, bx, 1);
                let b: u32 = block_channel(rgb, width, height, by, bx, 2);
                let uv: (u8, u8) = chroma_bytes(r, g, b);
                yuv.set(y_size + k, uv.0);
                yuv.set(y_size + uv_size + k, uv.1);
            },
            None => {},
        }
        k = k + 1;
    }
    assert(yuv@ =~= yuv420(prev, rgb@, width as int, height as int));
}

/// Converts packed RGB to planar YUV 4:2:0: the luma plane, then the U plane
/// and the V plane. Chroma is taken from the mean of each two-by-two block.
/// A byte that no pixel of `rgb` reaches is zero.
pub fn rgb_to_yuv420(rgb: &[u8], width: usize, height: usize) -> (yuv: Vec<u8>)
    requires
        yuv420_len(width as int, height as int) <= usize::MAX,
    ensures
        yuv@ == yuv420(
            Seq::new(yuv420_len(width as int, height as int) as nat, |p: int| 0u8),
            rgb@,
            width as int,
            height as int,
        ),
{
    assert(0 <= width * height <= usize::MAX) by (nonlinear_arith)
        requires
            width * height + 2 * (width * height / 4) <= usize::MAX,
            0 <= width,
            0 <= height,
    ;
    let y_size: usize = width * height;
    let uv_size: usize = y_size / 4;
    let mut yuv: Vec<u8> = vec![0u8; y_size + uv_size * 2];
    assert(yuv@ =~= Seq::new(yuv420_len(width as int, height as int) as nat, |p: int| 0u8));
    write_yuv420(rgb, width, height, &mut yuv);
    yuv
}

/// Byte `q` of the RGBA picture made of a planar YUV 4:2:0 picture: four
/// bytes for each pixel, the last of them 255.
pub open spec fn rgba_at(yuv: Seq<u8>, width: int, height: int, q: int) -> u8 {
    let y_size = width * height;
    let uv_size = y_size / 4;
    let p = q / 4;
    let at = (p / width / 2) * (width / 2) + p % width / 2;
    let y = yuv[p] as int;
    let u = yuv[y_size + at] as int - 128;
    let v = yuv[y_size + uv_size + at] as int - 128;
    if q % 4 == 0 {
        clamp_u8(y + (351 * v) / 256)
    } else if q % 4 == 1 {
        clamp_u8(y - (179 * v + 86 * u) / 256)
    } else if q % 4 == 2 {
        clamp_u8(y + (443 * u) / 256)
    } else {
        255
    }
}

/// Every pixel of a picture of this size has its chroma within the chroma
/// planes; so it is where both sides are even.
pub open spec fn chroma_covers(width: int, height: int) -> bool {
    width <= 0 || height <= 0 || ((height - 1) / 2) * (width / 2) + (width - 1) / 2 < width
        * height / 4
}

fn clamp_byte(x: i32) -> (b: u8)
    ensures
        b == clamp_u8(x as int),
{
    if x < 0 {
        0
    } else if x > 255 {
        255
    } else {
        x as u8
    }
}

/// Converts a planar YUV 4:2:0 picture to RGBA.
pub fn yuv420_to_rgba(yuv: &[u8], width: usize, height: usize) -> (rgba: Vec<u8>)
    requires
        width * height * 4 <= usize::MAX,
        yuv.len() >= yuv420_len(width as int, height as int),
        chroma_covers(width as int, height as int),
    ensures
        rgba@ == Seq::new(
            (width * height * 4) as nat,
            |q: int| rgba_at(yuv@, width as int, height as int, q),
        ),
{
    assert(0 <= width * height <= usize::MAX) by (nonlinear_arith)
        requires
            width * height * 4 <= usize::MAX,
            0 <= width,
            0 <= height,
    ;
    let y_size: usize = width * height;
    let uv_size: usize = y_size / 4;
    let half: usize = width / 2;
    let mut rgba: Vec<u8> = Vec::new();
    let mut j: usize = 0;
    while j < height
        invariant
            j <= height,
            y_size == width * height,
            uv_size == y_size / 4,
            half == width / 2,
            y_size * 4 <= usize::MAX,
            yuv.len() >= y_size + 2 * uv_size,
            chroma_covers(width as int, height as int),
            rgba.len() == j * width * 4,
            forall|q: int|
                0 <= q < rgba.len() ==> rgba@[q] == rgba_at(yuv@, width as int, height as int, q),
        decreases height - j,
    {
        let mut i: usize = 0;
        while i < width
            invariant
                j < height,
                i <= width,
                y_size == width * height,
                uv_size == y_size / 4,
                half == width / 2,
                y_size * 4 <= usize::MAX,
                yuv.len() >= y_size + 2 * uv_size,
                chroma_covers(width as int, height as int),
                rgba.len() == (j * width + i) * 4,
                forall|q: int|
                    0 <= q < rgba.len() ==> rgba@[q] == rgba_at(
                        yuv@,
                        width as int,
                        height as int,
                        q,
                    ),
            decreases width - i,
        {
            assert(j * width + i < width * height && (j / 2) * (width / 2) + i / 2 <= ((height - 1)
                / 2) * (width / 2) + (width - 1) / 2 && (j * width + i) / (width as int) == j && (j
                * width + i) % (width as int) == i) by (nonlinear_arith)
                requires
                    j < height,
                    i < width,
            ;
            let p: usize = j * width + i;
            let at: usize = (j / 2) * half + i / 2;
            let y: i32 = yuv[p] as i32;
            let u: i32 = yuv[y_size + at] as i32 - 128;
            let v: i32 = yuv[y_size + uv_size + at] as i32 - 128;
            // Each sum is moved above zero by a multiple of 256 before it is
            // divided, so that the quotient is rounded down.
            let dr: i32 = ((351 * v + 45056) as u32 / 256) as i32 - 176;
            let dg: i32 = ((179 * v + 86 * u + 34048) as u32 / 256) as i32 - 133;
            let db: i32 = ((443 * u + 56832) as u32 / 256) as i32 - 222;
            assert(dr == (351 * v) / 256 && dg == (179 * v + 86 * u) / 256 && db == (443 * u) / 256);
            let ghost before = rgba@;
            rgba.push(clamp_byte(y + dr));
            rgba.push(clamp_byte(y - dg));
            rgba.push(clamp_byte(y + db));
            rgba.push(255);
            proof {
                let base = p as int * 4;
                assert(before.len() == base);
                assert forall|q: int| 0 <= q < rgba.len() implies rgba@[q] == rgba_at(
                    yuv@,
                    width as int,
                    height as int,
                    q,
                ) by {
                    if q >= base {
                        assert(q / 4 == p as int);
                        assert(q % 4 == q - base);
                    } else {
                        assert(rgba@[q] == before[q]);
                    }
                }
            }
            i = i + 1;
        }
        assert((j * width + width) * 4 == (j + 1) * width * 4) by (nonlinear_arith);
        j = j + 1;
    }
    assert(rgba.len() == width * height * 4) by (nonlinear_arith)
        requires
            rgba.len() == j * width * 4,
            j == height,
    ;
    assert(rgba@ =~= Seq::new(
        (width * height * 4) as nat,
        |q: int| rgba_at(yuv@, width as int, height as int, q),
    ));
    rgba
}

/// The packed pixel `0xAARRGGBB` of an opaque colour.
pub open spec fn argb_pixel(r: u8, g: u8, b: u8) -> u32 {
    (0xff00_0000 + r as int * 0x1_0000 + g as int * 0x100 + b as int) as u32
}

/// How many pixels RGBA to ARGB conversion yields: those of the picture
/// that the buffer holds in full.
pub open spec fn argb_len(rgba_len: int, width: int, height: int) -> int {
    if width * height < rgba_len / 4 {
        width * height
    } else {
        rgba_len / 4
    }
}

/// Converts RGBA bytes to packed ARGB pixels, one `u32` for each pixel. The
/// alpha byte is not read: every pixel is made opaque.
pub fn rgba_to_argb(rgba: &[u8], width: u32, height: u32) -> (argb: Vec<u32>)
    ensures
        argb@ == Seq::new(
            argb_len(rgba.len() as int, width as int, height as int) as nat,
            |i: int| argb_pixel(rgba@[4 * i], rgba@[4 * i + 1], rgba@[4 * i + 2]),
        ),
{
    assert(0 <= width * height <= u64::MAX) by (nonlinear_arith)
        requires
            0 <= width <= u32::MAX,
            0 <= height <= u32::MAX,
    ;
    let wanted: u64 = width as u64 * height as u64;
    let held: usize = rgba.len() / 4;
    let count: usize = if wanted < held as u64 {
        wanted as usize
    } else {
        held
    };
    let mut argb: Vec<u32> = Vec::with_capacity(count);
    let mut i: usize = 0;
    while i < count
        invariant
            i <= count,
            count <= rgba.len() / 4,
            argb.len() == i,
            forall|k: int|
                0 <= k < i ==> argb@[k] == argb_pixel(rgba@[4 * k], rgba@[4 * k + 1], rgba@[4 * k + 2]),
        decreases count - i,
    {
        let r: u32 = rgba[4 * i] as u32;
        let g: u32 = rgba[4 * i + 1] as u32;
        let b: u32 = rgba[4 * i + 2] as u32;
        assert(0xff00_0000u32 | (r << 16) | (g << 8) | b == 0xff00_0000 + r * 0x1_0000 + g * 0x100
            + b) by (bit_vector)
            requires
                r < 256,
                g < 256,
                b < 256,
        ;
        argb.push(0xff00_0000u32 | (r << 16) | (g << 8) | b);
        i = i + 1;
    }
    assert(argb@ =~= Seq::new(
        argb_len(rgba.len() as int, width as int, height as int) as nat,
        |i: int| argb_pixel(rgba@[4 * i], rgba@[4 * i + 1], rgba@[4 * i + 2]),
    ));
    argb
}

/// Bytes from one row of a BGRA frame to the next: the frame's size divided
/// by its height.
pub open spec fn bgra_stride(bgra_len: int, height: int) -> int {
    if height <= 0 {
        0
    } else {
        bgra_len / height
    }
}

/// The byte at which pixel `k` of a BGRA frame begins, the pixels counted
/// row by row: the pixel in row `y`, column `x` begins at byte
/// `y * stride + 4 * x`.
pub open spec fn bgra_offset(width: int, stride: int, k: int) -> int {
    k / width * stride + k % width * 4
}

/// The RGB bytes of the first `n` pixels of a BGRA frame, row by row. A pixel
/// that the frame does not hold in full is left out.
pub open spec fn rgb_of_bgra(bgra: Seq<u8>, width: int, stride: int, n: int) -> Seq<u8>
    decreases n,
{
    if n <= 0 || width <= 0 {
        Seq::empty()
    } else {
        let before = rgb_of_bgra(bgra, width, stride, n - 1);
        let at = bgra_offset(width, stride, n - 1);
        if at + 2 < bgra.len() {
            before + seq![bgra[at + 2], bgra[at + 1], bgra[at]]
        } else {
            before
        }
    }
}

/// Pixels that a frame does not hold add nothing.
proof fn lemma_rgb_of_bgra_skips(bgra: Seq<u8>, width: int, stride: int, m: int, n: int)
    requires
        0 <= m <= n,
        width > 0,
        forall|k: int| m <= k < n ==> #[trigger] bgra_offset(width, stride, k) + 2 >= bgra.len(),
    ensures
        rgb_of_bgra(bgra, width, stride, n) == rgb_of_bgra(bgra, width, stride, m),
    decreases n - m,
{
    if m < n {
        lemma_rgb_of_bgra_skips(bgra, width, stride, m, n - 1);
    }
}

/// Of a frame that holds the first `n` pixels in full, the RGB picture has
/// three bytes for each pixel: red, green and blue, which are the third, the
/// second and the first byte of the pixel in the frame.
pub proof fn lemma_rgb_of_whole_frame(bgra: Seq<u8>, width: int, stride: int, n: int)
    requires
        width > 0,
        n >= 0,
        forall|k: int|
            0 <= k < n ==> 0 <= #[trigger] bgra_offset(width, stride, k) && bgra_offset(
                width,
                stride,
                k,
            ) + 2 < bgra.len(),
    ensures
        rgb_of_bgra(bgra, width, stride, n).len() == 3 * n,
        forall|k: int|
            0 <= k < n ==> {
                let at = #[trigger] bgra_offset(width, stride, k);
                &&& rgb_of_bgra(bgra, width, stride, n)[3 * k] == bgra[at + 2]
                &&& rgb_of_bgra(bgra, width, stride, n)[3 * k + 1] == bgra[at + 1]
                &&& rgb_of_bgra(bgra, width, stride, n)[3 * k + 2] == bgra[at]
            },
    decreases n,
{
    if n > 0 {
        lemma_rgb_of_whole_frame(bgra, width, stride, n - 1);
        let before = rgb_of_bgra(bgra, width, stride, n - 1);
        let at = bgra_offset(width, stride, n - 1);
        let all = rgb_of_bgra(bgra, width, stride, n);
        assert(all == before + seq![bgra[at + 2], bgra[at + 1], bgra[at]]);
        assert forall|k: int| 0 <= k < n implies {
            let at = #[trigger] bgra_offset(width, stride, k);
            &&& all[3 * k] == bgra[at + 2]
            &&& all[3 * k + 1] == bgra[at + 1]
            &&& all[3 * k + 2] == bgra[at]
        } by {
            if k < n - 1 {
                assert(all[3 * k] == before[3 * k]);
                assert(all[3 * k + 1] == before[3 * k + 1]);
                assert(all[3 * k + 2] == before[3 * k + 2]);
            }
        }
    }
}

/// Converts a BGRA frame, whose rows may be padded, to packed RGB.
pub fn bgra_to_rgb(bgra: &[u8], width: usize, height: usize) -> (rgb: Vec<u8>)
    ensures
        rgb@ == rgb_of_bgra(
            bgra@,
            width as int,
            bgra_stride(bgra.len() as int, height as int),
            width * height,
        ),
{
    let len: usize = bgra.len();
    let stride: usize = if height == 0 {
        0
    } else {
        len / height
    };
    let mut rgb: Vec<u8> = Vec::new();
    if width == 0 {
        return rgb;
    }
    let mut y: usize = 0;
    while y < height
        invariant
            y <= height,
            width > 0,
            len == bgra.len(),
            stride == bgra_stride(len as int, height as int),
            rgb@ == rgb_of_bgra(bgra@, width as int, stride as int, y * width),
        decreases height - y,
    {
        assert(y * stride <= len) by (nonlinear_arith)
            requires
                y < height,
                stride == len / height,
        ;
        let base: usize = y * stride;
        // Columns that the frame holds in this row: those below `avail`.
        let avail: usize = if len - base >= 3 {
            (len - base - 3) / 4 + 1
        } else {
            0
        };
        let end: usize = if width < avail {
            width
        } else {
            avail
        };
        let mut x: usize = 0;
        while x < end
            invariant
                x <= end <= width,
                end <= avail,
                y < height,
                base == y * stride,
                base <= len,
                len == bgra.len(),
                avail == if len - base >= 3 {
                    (len - base - 3) / 4 + 1
                } else {
                    0
                },
                rgb@ == rgb_of_bgra(bgra@, width as int, stride as int, y * width + x),
            decreases end - x,
        {
            let at: usize = base + 4 * x;
            proof {
                let n = y * width + x;
                assert(n / (width as int) == y && n % (width as int) == x) by (nonlinear_arith)
                    requires
                        n == y * width + x,
                        0 <= x < width,
                        0 <= y,
                ;
            }
            rgb.push(bgra[at + 2]);
            rgb.push(bgra[at + 1]);
            rgb.push(bgra[at]);
            assert(rgb@ =~= rgb_of_bgra(bgra@, width as int, stride as int, y * width + x + 1));
            x = x + 1;
        }
        proof {
            let m = y * width + end;
            let n = (y + 1) * width;
            assert(n == y * width + width) by (nonlinear_arith)
                requires
                    n == (y + 1) * width,
            ;
            assert forall|k: int| m <= k < n implies #[trigger] bgra_offset(
                width as int,
                stride as int,
                k,
            ) + 2 >= len by {
                let c = k - y * width;
                assert(k / (width as int) == y && k % (width as int) == c) by (nonlinear_arith)
                    requires
                        k == y * width + c,
                        0 <= c < width,
                        0 <= y,
                ;
            }
            lemma_rgb_of_bgra_skips(bgra@, width as int, stride as int, m, n);
        }
        y = y + 1;
    }
    assert(y * width == width * height) by (nonlinear_arith)
        requires
            y == height,
    ;
    rgb
}

} // verus!
