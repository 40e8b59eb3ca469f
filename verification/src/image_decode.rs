//! Decoded images, and what is done to their pixels before they become textures.

use vstd::prelude::*;

use crate::file_list::extension_is;
use crate::path::MediaPath;
use crate::scaling::to_single;
use crate::text::copy_text;

verus! {

use crate::file_list::has_extension;
use crate::scaling::{excess_bits, in_single, nearest, LEAST_24_BITS};
use vstd::arithmetic::power2::{lemma2_to64, lemma_pow2_unfold, pow2};

/// A colour with its alpha multiplied into the other channels.
#[derive(Clone, Copy, Debug, PartialEq, Eq, Structural)]
pub struct Color32 {
    pub r: u8,
    pub g: u8,
    pub b: u8,
    pub a: u8,
}

/// Channel `c` of a colour.
pub open spec fn channel(p: Color32, c: int) -> u8 {
    if c == 0 {
        p.r
    } else if c == 1 {
        p.g
    } else if c == 2 {
        p.b
    } else {
        p.a
    }
}

/// An image: its width and height, and its pixels row by row.
#[derive(Clone, Debug, PartialEq, Eq)]
pub struct ColorImage {
    pub size: [usize; 2],
    pub pixels: Vec<Color32>,
}

impl ColorImage {
    /// The image has as many pixels as its width and height say, and its size in bytes can be
    /// counted.
    pub open spec fn wf(&self) -> bool {
        &&& self.pixels@.len() == self.size[0] * self.size[1]
        &&& self.pixels@.len() * 4 <= usize::MAX
    }
}

/// Channel `c` of the pixel at column `x` and row `y` of an image of the given width, four bytes
/// to a pixel.
pub open spec fn byte_at(data: Seq<u8>, width: int, x: int, y: int, c: int) -> u8 {
    data[(y * width + x) * 4 + c]
}

/// The smaller of two integers.
pub open spec fn least(a: int, b: int) -> int {
    if a < b {
        a
    } else {
        b
    }
}

/// The larger of two integers.
pub open spec fn greatest(a: int, b: int) -> int {
    if a < b {
        b
    } else {
        a
    }
}

/// The binary logarithm, rounded down.
pub open spec fn whole_log(n: nat) -> nat
    decreases n,
{
    if n < 2 {
        0
    } else {
        1 + whole_log(n / 2)
    }
}

/// Whether the binary logarithm of a single-precision number is so little below a whole number that
/// in single precision it is that number. From 16 to 32 single-precision numbers lie `2^-19` apart,
/// and half of that is what the logarithm falls by when eleven in `2^24` are taken away.
pub open spec fn log_rounds_up(n: nat) -> bool {
    let next = pow2(whole_log(n) + 1);
    (next - n) * 0x100_0000 <= 11 * next
}

/// The number of mip levels of a texture: one more than the binary logarithm of its larger side,
/// in single precision and rounded down. An empty texture has one.
pub open spec fn mip_count(width: nat, height: nat) -> nat {
    let side = in_single(greatest(width as int, height as int) as nat);
    if side == 0 {
        1
    } else if log_rounds_up(side) {
        whole_log(side) + 2
    } else {
        whole_log(side) + 1
    }
}

/// The whole logarithm is the exponent of the greatest power of two that is not above a number.
proof fn lemma_whole_log(n: nat, k: nat)
    requires
        pow2(k) <= n < pow2(k + 1),
    ensures
        whole_log(n) == k,
    decreases k,
{
    lemma2_to64();
    lemma_pow2_unfold(k + 1);
    if k > 0 {
        lemma_pow2_unfold(k);
        vstd::arithmetic::power2::lemma_pow2_pos((k - 1) as nat);
        lemma_whole_log(n / 2, (k - 1) as nat);
    }
}

/// Any number lies between the power of two at its whole logarithm and the next.
pub proof fn lemma_log_bounds(n: nat)
    requires
        n > 0,
    ensures
        pow2(whole_log(n)) <= n < pow2(whole_log(n) + 1),
    decreases n,
{
    lemma2_to64();
    lemma_pow2_unfold(whole_log(n) + 1);
    if n >= 2 {
        lemma_pow2_unfold(whole_log(n));
        lemma_log_bounds(n / 2);
    }
}

/// The number of mip levels of a texture.
pub fn compute_mip_levels(width: u32, height: u32) -> (levels: u32)
    ensures
        levels == mip_count(width as nat, height as nat),
{
    let side: u64 = to_single(
        if width < height {
            height
        } else {
            width
        },
    );
    if side == 0 {
        return 1;
    }
    let mut levels: u32 = 1;
    let mut bound: u64 = 2;
    proof {
        lemma2_to64();
    }
    while bound <= side
        invariant
            0 < side <= 0x2_0000_0000,
            1 <= levels < bound <= 0x4_0000_0000,
            bound == pow2(levels as nat),
            pow2((levels - 1) as nat) <= side,
            levels <= 34,
        decreases 2 * side - bound,
    {
        proof {
            lemma_pow2_unfold((levels + 1) as nat);
            vstd::arithmetic::power2::lemma2_to64_rest();
            if levels == 34 {
                assert(bound == pow2(34));
            }
        }
        bound = bound * 2;
        levels += 1;
    }
    proof {
        lemma_whole_log(side as nat, (levels - 1) as nat);
    }
    if (bound - side) * 0x100_0000 <= 11 * bound {
        levels + 1
    } else {
        levels
    }
}

proof fn lemma_row_before(y: int, x: int, y1: int, width: int)
    requires
        0 <= x < width,
        0 <= y < y1,
    ensures
        0 <= y * width + x,
        y * width + x < y1 * width,
        0 <= y * width,
{
    assert(y * width + x < y1 * width) by (nonlinear_arith)
        requires
            0 <= x < width,
            0 <= y < y1,
    ;
    assert(0 <= y * width) by (nonlinear_arith)
        requires
            0 <= y,
            0 < width,
    ;
}

/// Whether `out` is the image `src` with every second pixel of every second row.
pub open spec fn is_nearest_half(out: Seq<u8>, src: Seq<u8>, width: int, height: int) -> bool {
    let (w, h) = (width / 2, height / 2);
    &&& out.len() == w * h * 4
    &&& forall|x: int, y: int, c: int|
        0 <= x < w && 0 <= y < h && 0 <= c < 4 ==> #[trigger] byte_at(out, w, x, y, c) == byte_at(
            src,
            width,
            2 * x,
            2 * y,
            c,
        )
}

/// Takes every second pixel of every second row.
pub fn nearest_half_rgba(src: &[u8], width: u32, height: u32) -> (r: (Vec<u8>, u32, u32))
    requires
        src@.len() >= width * height * 4,
    ensures
        is_nearest_half(r.0@, src@, width as int, height as int),
        r.1 == width / 2,
        r.2 == height / 2,
{
    let new_w: u32 = width / 2;
    let new_h: u32 = height / 2;
    let (w, h): (usize, usize) = (new_w as usize, new_h as usize);
    let stride: usize = width as usize;
    let total: usize = src.len();
    let ghost all = src@;
    let mut out: Vec<u8> = Vec::new();
    let mut y: usize = 0;
    assert(0 * w == 0) by (nonlinear_arith);
    while y < h
        invariant
            0 <= y <= h,
            w == width / 2,
            h == height / 2,
            stride == width,
            all == src@,
            total == all.len(),
            all.len() >= width * height * 4,
            out@.len() == y * w * 4,
            forall|p: int, q: int, c: int|
                0 <= p < w && 0 <= q < y && 0 <= c < 4 ==> #[trigger] byte_at(
                    out@,
                    w as int,
                    p,
                    q,
                    c,
                ) == byte_at(all, stride as int, 2 * p, 2 * q, c),
        decreases h - y,
    {
        let ghost sw = stride as int;
        proof {
            assert(y * 2 * sw + sw <= height * sw) by (nonlinear_arith)
                requires
                    y * 2 + 1 <= height,
                    sw >= 0,
            ;
            assert(0 <= y * 2 * sw) by (nonlinear_arith)
                requires
                    0 <= y,
                    0 <= sw,
            ;
            assert(height * sw == width * height) by (nonlinear_arith)
                requires
                    sw == width,
            ;
            assert(y * 2 * sw == 2 * y * sw) by (nonlinear_arith);
        }
        let row: usize = y * 2 * stride;
        let mut x: usize = 0;
        while x < w
            invariant
                0 <= x <= w,
                y < h,
                w == width / 2,
                h == height / 2,
                stride == width,
                sw == stride,
                all == src@,
                total == all.len(),
                row == y * 2 * sw,
                row == 2 * y * sw,
                (row + sw) * 4 <= all.len(),
                out@.len() == (y * w + x) * 4,
                forall|p: int, q: int, c: int|
                    0 <= p < w && 0 <= q < y && 0 <= c < 4 ==> #[trigger] byte_at(
                        out@,
                        w as int,
                        p,
                        q,
                        c,
                    ) == byte_at(all, sw, 2 * p, 2 * q, c),
                forall|p: int, c: int|
                    0 <= p < x && 0 <= c < 4 ==> #[trigger] byte_at(
                        out@,
                        w as int,
                        p,
                        y as int,
                        c,
                    ) == byte_at(all, sw, 2 * p, 2 * y, c),
            decreases w - x,
        {
            let ghost before = out@;
            let idx: usize = (row + x * 2) * 4;
            out.push(src[idx]);
            out.push(src[idx + 1]);
            out.push(src[idx + 2]);
            out.push(src[idx + 3]);
            proof {
                assert forall|p: int, q: int, c: int|
                    0 <= p < w && 0 <= q < y && 0 <= c < 4 implies #[trigger] byte_at(
                    out@,
                    w as int,
                    p,
                    q,
                    c,
                ) == byte_at(all, sw, 2 * p, 2 * q, c) by {
                    lemma_row_before(q, p, y as int, w as int);
                    assert(byte_at(before, w as int, p, q, c) == byte_at(all, sw, 2 * p, 2 * q, c));
                }
                assert forall|p: int, c: int| 0 <= p < x + 1 && 0 <= c < 4 implies #[trigger] byte_at(
                    out@,
                    w as int,
                    p,
                    y as int,
                    c,
                ) == byte_at(all, sw, 2 * p, 2 * y, c) by {
                    assert(0 <= y * w) by (nonlinear_arith)
                        requires
                            0 <= y,
                            0 <= w,
                    ;
                    if p < x {
                        assert(byte_at(before, w as int, p, y as int, c) == byte_at(
                            all,
                            sw,
                            2 * p,
                            2 * y,
                            c,
                        ));
                    }
                }
            }
            x += 1;
        }
        assert((y + 1) * w == y * w + w) by (nonlinear_arith);
        y += 1;
    }
    assert(h * w == w * h) by (nonlinear_arith);
    (out, new_w, new_h)
}

/// Whether `out` holds every second pixel of every second row of the pixels `src`.
pub open spec fn is_nearest_half_of_pixels(
    out: Seq<u8>,
    src: Seq<Color32>,
    width: int,
    height: int,
) -> bool {
    let (w, h) = (width / 2, height / 2);
    &&& out.len() == w * h * 4
    &&& forall|x: int, y: int, c: int|
        0 <= x < w && 0 <= y < h && 0 <= c < 4 ==> #[trigger] byte_at(out, w, x, y, c) == channel(
            src[2 * y * width + 2 * x],
            c,
        )
}

/// Takes every second pixel of every second row, as bytes.
pub fn nearest_half_from_pixels(src: &Vec<Color32>, width: u32, height: u32) -> (r: (
    Vec<u8>,
    u32,
    u32,
))
    requires
        src@.len() >= width * height,
    ensures
        is_nearest_half_of_pixels(r.0@, src@, width as int, height as int),
        r.1 == width / 2,
        r.2 == height / 2,
{
    let new_w: u32 = width / 2;
    let new_h: u32 = height / 2;
    let (w, h): (usize, usize) = (new_w as usize, new_h as usize);
    let stride: usize = width as usize;
    let total: usize = src.len();
    let ghost all = src@;
    let mut out: Vec<u8> = Vec::new();
    let mut y: usize = 0;
    assert(0 * w == 0) by (nonlinear_arith);
    while y < h
        invariant
            0 <= y <= h,
            w == width / 2,
            h == height / 2,
            stride == width,
            all == src@,
            total == all.len(),
            all.len() >= width * height,
            out@.len() == y * w * 4,
            forall|p: int, q: int, c: int|
                0 <= p < w && 0 <= q < y && 0 <= c < 4 ==> #[trigger] byte_at(
                    out@,
                    w as int,
                    p,
                    q,
                    c,
                ) == channel(all[2 * q * stride + 2 * p], c),
        decreases h - y,
    {
        let ghost sw = stride as int;
        proof {
            assert(y * 2 * sw + sw <= height * sw) by (nonlinear_arith)
                requires
                    y * 2 + 1 <= height,
                    sw >= 0,
            ;
            assert(0 <= y * 2 * sw) by (nonlinear_arith)
                requires
                    0 <= y,
                    0 <= sw,
            ;
            assert(height * sw == width * height) by (nonlinear_arith)
                requires
                    sw == width,
            ;
            assert(y * 2 * sw == 2 * y * sw) by (nonlinear_arith);
        }
        let row: usize = y * 2 * stride;
        let mut x: usize = 0;
        while x < w
            invariant
                0 <= x <= w,
                y < h,
                w == width / 2,
                h == height / 2,
                stride == width,
                sw == stride,
                all == src@,
                total == all.len(),
                row == 2 * y * sw,
                row + sw <= all.len(),
                out@.len() == (y * w + x) * 4,
                forall|p: int, q: int, c: int|
                    0 <= p < w && 0 <= q < y && 0 <= c < 4 ==> #[trigger] byte_at(
                        out@,
                        w as int,
                        p,
                        q,
                        c,
                    ) == channel(all[2 * q * sw + 2 * p], c),
                forall|p: int, c: int|
                    0 <= p < x && 0 <= c < 4 ==> #[trigger] byte_at(
                        out@,
                        w as int,
                        p,
                        y as int,
                        c,
                    ) == channel(all[2 * y * sw + 2 * p], c),
            decreases w - x,
        {
            let ghost before = out@;
            let pixel = src[row + x * 2];
            out.push(pixel.r);
            out.push(pixel.g);
            out.push(pixel.b);
            out.push(pixel.a);
            proof {
                assert forall|p: int, q: int, c: int|
                    0 <= p < w && 0 <= q < y && 0 <= c < 4 implies #[trigger] byte_at(
                    out@,
                    w as int,
                    p,
                    q,
                    c,
                ) == channel(all[2 * q * sw + 2 * p], c) by {
                    lemma_row_before(q, p, y as int, w as int);
                    assert(byte_at(before, w as int, p, q, c) == channel(
                        all[2 * q * sw + 2 * p],
                        c,
                    ));
                }
                assert forall|p: int, c: int| 0 <= p < x + 1 && 0 <= c < 4 implies #[trigger] byte_at(
                    out@,
                    w as int,
                    p,
                    y as int,
                    c,
                ) == channel(all[2 * y * sw + 2 * p], c) by {
                    assert(0 <= y * w) by (nonlinear_arith)
                        requires
                            0 <= y,
                            0 <= w,
                    ;
                    if p < x {
                        assert(byte_at(before, w as int, p, y as int, c) == channel(
                            all[2 * y * sw + 2 * p],
                            c,
                        ));
                    }
                }
            }
            x += 1;
        }
        assert((y + 1) * w == y * w + w) by (nonlinear_arith);
        y += 1;
    }
    assert(h * w == w * h) by (nonlinear_arith);
    (out, new_w, new_h)
}

/// The bytes of a sequence of pixels, four to a pixel.
pub open spec fn pixel_bytes(pixels: Seq<Color32>) -> Seq<u8> {
    Seq::new(pixels.len() * 4, |k: int| channel(pixels[k / 4], k % 4))
}

/// The bytes of an image, four to a pixel.
pub fn color_image_to_rgba(img: &ColorImage) -> (buf: Vec<u8>)
    ensures
        buf@ == pixel_bytes(img.pixels@),
{
    let mut buf: Vec<u8> = Vec::new();
    let n: usize = img.pixels.len();
    let mut i: usize = 0;
    while i < n
        invariant
            i <= n,
            n == img.pixels@.len(),
            buf@ == pixel_bytes(img.pixels@.take(i as int)),
        decreases n - i,
    {
        let pixel = img.pixels[i];
        let ghost before = buf@;
        buf.push(pixel.r);
        buf.push(pixel.g);
        buf.push(pixel.b);
        buf.push(pixel.a);
        i += 1;
        assert(buf@ =~= pixel_bytes(img.pixels@.take(i as int))) by {
            assert forall|k: int| 0 <= k < buf@.len() implies buf@[k] == #[trigger] pixel_bytes(
                img.pixels@.take(i as int),
            )[k] by {
                if k < before.len() {
                    assert(buf@[k] == before[k]);
                }
            }
        }
    }
    assert(img.pixels@.take(n as int) =~= img.pixels@);
    buf
}

/// Channel `c` of the pixel at column `x` and row `y`, or of the last one in its row or column
/// where the image ends before that.
pub open spec fn clamped_byte(data: Seq<u8>, width: int, height: int, x: int, y: int, c: int) -> int {
    byte_at(data, width, least(x, width - 1), least(y, height - 1), c) as int
}

/// The mean of four neighbouring pixels, rounded down.
pub open spec fn box_mean(data: Seq<u8>, width: int, height: int, x: int, y: int, c: int) -> int {
    (clamped_byte(data, width, height, 2 * x, 2 * y, c) + clamped_byte(
        data,
        width,
        height,
        2 * x + 1,
        2 * y,
        c,
    ) + clamped_byte(data, width, height, 2 * x, 2 * y + 1, c) + clamped_byte(
        data,
        width,
        height,
        2 * x + 1,
        2 * y + 1,
        c,
    )) / 4
}

fn read_byte(data: &[u8], width: usize, height: usize, x: usize, y: usize, c: usize) -> (r: u32)
    requires
        width >= 1,
        height >= 1,
        data@.len() >= width * height * 4,
        c < 4,
    ensures
        r == clamped_byte(data@, width as int, height as int, x as int, y as int, c as int),
        r <= 255,
{
    let px: usize = if x < width - 1 {
        x
    } else {
        width - 1
    };
    let py: usize = if y < height - 1 {
        y
    } else {
        height - 1
    };
    let total: usize = data.len();
    proof {
        assert(py * width + width <= width * height) by (nonlinear_arith)
            requires
                py + 1 <= height,
                width >= 0,
        ;
        assert(0 <= py * width) by (nonlinear_arith)
            requires
                0 <= py,
                0 <= width,
        ;
    }
    data[(py * width + px) * 4 + c] as u32
}

/// Whether `out` is the image `data` at half its size, each pixel the mean of four. Neither side
/// is halved to nothing.
pub open spec fn is_box_half(out: Seq<u8>, data: Seq<u8>, width: int, height: int) -> bool {
    let (w, h) = (greatest(width / 2, 1), greatest(height / 2, 1));
    &&& out.len() == w * h * 4
    &&& forall|x: int, y: int, c: int|
        0 <= x < w && 0 <= y < h && 0 <= c < 4 ==> #[trigger] byte_at(out, w, x, y, c) == box_mean(
            data,
            width,
            height,
            x,
            y,
            c,
        )
}

fn mean_byte(data: &[u8], width: usize, height: usize, x: usize, y: usize, c: usize) -> (r: u8)
    requires
        width >= 1,
        height >= 1,
        data@.len() >= width * height * 4,
        c < 4,
        2 * x + 1 <= usize::MAX,
        2 * y + 1 <= usize::MAX,
    ensures
        r == box_mean(data@, width as int, height as int, x as int, y as int, c as int),
{
    let sum: u32 = read_byte(data, width, height, x * 2, y * 2, c) + read_byte(
        data,
        width,
        height,
        x * 2 + 1,
        y * 2,
        c,
    ) + read_byte(data, width, height, x * 2, y * 2 + 1, c) + read_byte(
        data,
        width,
        height,
        x * 2 + 1,
        y * 2 + 1,
        c,
    );
    (sum / 4) as u8
}

/// Halves an image, each new pixel the mean of four old ones.
pub fn box_filter_mip(data: &[u8], width: u32, height: u32) -> (r: (Vec<u8>, u32, u32))
    requires
        width >= 1,
        height >= 1,
        data@.len() >= width * height * 4,
    ensures
        is_box_half(r.0@, data@, width as int, height as int),
        r.1 == greatest(width as int / 2, 1),
        r.2 == greatest(height as int / 2, 1),
{
    let new_w: u32 = if width / 2 < 1 {
        1
    } else {
        width / 2
    };
    let new_h: u32 = if height / 2 < 1 {
        1
    } else {
        height / 2
    };
    let (w, h): (usize, usize) = (new_w as usize, new_h as usize);
    let (sw, sh): (usize, usize) = (width as usize, height as usize);
    let ghost all = data@;
    let mut out: Vec<u8> = Vec::new();
    let mut y: usize = 0;
    assert(0 * w == 0) by (nonlinear_arith);
    while y < h
        invariant
            0 <= y <= h,
            w == greatest(width as int / 2, 1),
            h == greatest(height as int / 2, 1),
            sw == width,
            sh == height,
            width >= 1,
            height >= 1,
            all == data@,
            all.len() >= width * height * 4,
            out@.len() == y * w * 4,
            forall|p: int, q: int, c: int|
                0 <= p < w && 0 <= q < y && 0 <= c < 4 ==> #[trigger] byte_at(
                    out@,
                    w as int,
                    p,
                    q,
                    c,
                ) == box_mean(all, sw as int, sh as int, p, q, c),
        decreases h - y,
    {
        let mut x: usize = 0;
        while x < w
            invariant
                0 <= x <= w,
                y < h,
                w == greatest(width as int / 2, 1),
                h == greatest(height as int / 2, 1),
                sw == width,
                sh == height,
                width >= 1,
                height >= 1,
                all == data@,
                all.len() >= sw * sh * 4,
                out@.len() == (y * w + x) * 4,
                forall|p: int, q: int, c: int|
                    0 <= p < w && 0 <= q < y && 0 <= c < 4 ==> #[trigger] byte_at(
                        out@,
                        w as int,
                        p,
                        q,
                        c,
                    ) == box_mean(all, sw as int, sh as int, p, q, c),
                forall|p: int, c: int|
                    0 <= p < x && 0 <= c < 4 ==> #[trigger] byte_at(
                        out@,
                        w as int,
                        p,
                        y as int,
                        c,
                    ) == box_mean(all, sw as int, sh as int, p, y as int, c),
            decreases w - x,
        {
            let ghost before = out@;
            let (r, g): (u8, u8) = (mean_byte(data, sw, sh, x, y, 0), mean_byte(data, sw, sh, x, y, 1));
            let (b, a): (u8, u8) = (mean_byte(data, sw, sh, x, y, 2), mean_byte(data, sw, sh, x, y, 3));
            out.push(r);
            out.push(g);
            out.push(b);
            out.push(a);
            proof {
                assert forall|p: int, q: int, c: int|
                    0 <= p < w && 0 <= q < y && 0 <= c < 4 implies #[trigger] byte_at(
                    out@,
                    w as int,
                    p,
                    q,
                    c,
                ) == box_mean(all, sw as int, sh as int, p, q, c) by {
                    lemma_row_before(q, p, y as int, w as int);
                    assert(byte_at(before, w as int, p, q, c) == box_mean(
                        all,
                        sw as int,
                        sh as int,
                        p,
                        q,
                        c,
                    ));
                }
                assert forall|p: int, c: int| 0 <= p < x + 1 && 0 <= c < 4 implies #[trigger] byte_at(
                    out@,
                    w as int,
                    p,
                    y as int,
                    c,
                ) == box_mean(all, sw as int, sh as int, p, y as int, c) by {
                    assert(0 <= y * w) by (nonlinear_arith)
                        requires
                            0 <= y,
                            0 <= w,
                    ;
                    if p < x {
                        assert(byte_at(before, w as int, p, y as int, c) == box_mean(
                            all,
                            sw as int,
                            sh as int,
                            p,
                            y as int,
                            c,
                        ));
                    }
                }
            }
            x += 1;
        }
        assert((y + 1) * w == y * w + w) by (nonlinear_arith);
        y += 1;
    }
    assert(h * w == w * h) by (nonlinear_arith);
    (out, new_w, new_h)
}

/// How often an image has to be halved until neither side exceeds `max`.
pub open spec fn halvings(width: nat, height: nat, max: nat) -> nat
    decreases width + height,
{
    if width <= max && height <= max {
        0
    } else {
        1 + halvings(width / 2, height / 2, max)
    }
}

/// What is uploaded for an image: its bytes at the size it was shrunk to, and the number of its
/// mip levels.
pub struct TextureData {
    pub data: Vec<u8>,
    pub width: u32,
    pub height: u32,
    pub mip_levels: u32,
}

/// Whether `data` shows the pixels of an image, halved `k` times: each pixel is the one of the
/// image that stands at its place times two to the `k`.
pub open spec fn shows_halved(
    data: Seq<u8>,
    pixels: Seq<Color32>,
    width: nat,
    height: nat,
    k: nat,
) -> bool {
    let (w, h) = ((width / pow2(k)) as int, (height / pow2(k)) as int);
    &&& data.len() == w * h * 4
    &&& forall|x: int, y: int, c: int|
        0 <= x < w && 0 <= y < h && 0 <= c < 4 ==> #[trigger] byte_at(data, w, x, y, c) == channel(
            pixels[y * pow2(k) * width + x * pow2(k)],
            c,
        )
}

proof fn lemma_halve_once_more(n: nat, k: nat)
    ensures
        pow2(k) > 0,
        pow2(k + 1) == 2 * pow2(k),
        (n / pow2(k)) / 2 == n / pow2(k + 1),
{
    lemma_pow2_unfold(k + 1);
    vstd::arithmetic::power2::lemma_pow2_pos(k);
    vstd::arithmetic::div_mod::lemma_div_denominator(n as int, pow2(k) as int, 2);
    assert(pow2(k) * 2 == pow2(k + 1)) by (nonlinear_arith)
        requires
            pow2(k + 1) == 2 * pow2(k),
    ;
}

proof fn lemma_shows_halved_step(
    out: Seq<u8>,
    data: Seq<u8>,
    pixels: Seq<Color32>,
    width: nat,
    height: nat,
    k: nat,
)
    requires
        shows_halved(data, pixels, width, height, k),
        is_nearest_half(out, data, (width / pow2(k)) as int, (height / pow2(k)) as int),
    ensures
        shows_halved(out, pixels, width, height, k + 1),
{
    lemma_halve_once_more(width, k);
    lemma_halve_once_more(height, k);
    let (w, h) = ((width / pow2(k)) as int, (height / pow2(k)) as int);
    let (w1, h1) = ((width / pow2(k + 1)) as int, (height / pow2(k + 1)) as int);
    let p = pow2(k) as int;
    let p1 = pow2(k + 1) as int;
    assert forall|x: int, y: int, c: int| 0 <= x < w1 && 0 <= y < h1 && 0 <= c < 4 implies #[trigger] byte_at(
        out,
        w1,
        x,
        y,
        c,
    ) == channel(pixels[y * p1 * width + x * p1], c) by {
        assert(byte_at(out, w1, x, y, c) == byte_at(data, w, 2 * x, 2 * y, c));
        assert(byte_at(data, w, 2 * x, 2 * y, c) == channel(
            pixels[2 * y * p * width + 2 * x * p],
            c,
        ));
        assert(2 * y * p == y * p1) by (nonlinear_arith)
            requires
                p1 == 2 * p,
        ;
        assert(2 * x * p == x * p1) by (nonlinear_arith)
            requires
                p1 == 2 * p,
        ;
    }
}

/// The bytes of an image as they are uploaded: halved until neither side exceeds `max_dim`.
pub fn prepare_texture(image: &ColorImage, max_dim: u32) -> (r: TextureData)
    requires
        image.wf(),
        image.size[0] <= u32::MAX,
        image.size[1] <= u32::MAX,
    ensures
        ({
            let (w, h) = (image.size[0] as nat, image.size[1] as nat);
            let k = halvings(w, h, max_dim as nat);
            &&& r.width == w / pow2(k)
            &&& r.height == h / pow2(k)
            &&& shows_halved(r.data@, image.pixels@, w, h, k)
        }),
        r.width <= max_dim,
        r.height <= max_dim,
        r.mip_levels == mip_count(r.width as nat, r.height as nat),
{
    let orig_w: u32 = image.size[0] as u32;
    let orig_h: u32 = image.size[1] as u32;
    let ghost (iw, ih) = (orig_w as nat, orig_h as nat);
    let ghost px = image.pixels@;
    let ghost mut k: nat = 0;
    proof {
        lemma2_to64();
        lemma_halve_once_more(iw, 0);
        lemma_halve_once_more(ih, 0);
        assert(iw / 1 == iw && ih / 1 == ih);
    }
    let mut data: Vec<u8>;
    let mut w: u32 = orig_w;
    let mut h: u32 = orig_h;
    if orig_w > max_dim || orig_h > max_dim {
        let half = nearest_half_from_pixels(&image.pixels, orig_w, orig_h);
        data = half.0;
        w = half.1;
        h = half.2;
        proof {
            k = 1;
            assert(pow2(1) == 2);
            assert forall|x: int, y: int, c: int| 0 <= x < w && 0 <= y < h && 0 <= c < 4 implies #[trigger] byte_at(
                data@,
                w as int,
                x,
                y,
                c,
            ) == channel(px[y * pow2(1) * iw + x * pow2(1)], c) by {
                assert(byte_at(data@, w as int, x, y, c) == channel(
                    px[2 * y * orig_w + 2 * x],
                    c,
                ));
            }
            assert(shows_halved(data@, px, iw, ih, 1));
        }
    } else {
        data = color_image_to_rgba(image);
        proof {
            assert(pow2(0) == 1);
            assert forall|x: int, y: int, c: int| 0 <= x < w && 0 <= y < h && 0 <= c < 4 implies #[trigger] byte_at(
                data@,
                w as int,
                x,
                y,
                c,
            ) == channel(px[y * pow2(0) * iw + x * pow2(0)], c) by {
                lemma_row_before(y, x, h as int, w as int);
                assert(h * w == w * h) by (nonlinear_arith);
                let at = y * w + x;
                assert(0 <= at * 4 + c < px.len() * 4);
                assert((at * 4 + c) / 4 == at && (at * 4 + c) % 4 == c);
            }
            assert(shows_halved(data@, px, iw, ih, 0));
        }
    }
    while w > max_dim || h > max_dim
        invariant
            iw == orig_w,
            ih == orig_h,
            w == iw / pow2(k),
            h == ih / pow2(k),
            shows_halved(data@, px, iw, ih, k),
            halvings(iw, ih, max_dim as nat) == k + halvings(w as nat, h as nat, max_dim as nat),
        decreases w + h,
    {
        let half = nearest_half_rgba(data.as_slice(), w, h);
        proof {
            lemma_shows_halved_step(half.0@, data@, px, iw, ih, k);
            lemma_halve_once_more(iw, k);
            lemma_halve_once_more(ih, k);
            k = k + 1;
        }
        data = half.0;
        w = half.1;
        h = half.2;
    }
    TextureData { data, width: w, height: h, mip_levels: compute_mip_levels(w, h) }
}

/// What a decoder returns: the pixels of an image as bytes, four to a pixel, the alpha not
/// multiplied in.
#[derive(Clone, Debug, PartialEq, Eq)]
pub struct RawImage {
    pub width: u32,
    pub height: u32,
    pub rgba: Vec<u8>,
}

impl RawImage {
    /// The image has as many bytes as its width and height say.
    pub open spec fn wf(&self) -> bool {
        self.rgba@.len() == self.width * self.height * 4
    }
}

/// Width, height and bytes of the image that `image::ImageReader` decodes from a file's bytes,
/// with the format guessed from them and the pixels turned to eight-bit RGBA; nothing where it
/// reports an error.
pub uninterp spec fn decoded_image(bytes: Seq<u8>) -> Option<(nat, nat, Seq<u8>)>;

/// Decodes the bytes of an image file.
///
/// Calls `image::ImageReader` with a guessed format, and `to_rgba8` on what it decodes. The
/// outcome is taken to depend on the bytes alone; an image that is returned has four bytes for
/// each of its pixels. Which image given bytes hold is not stated. That the decoder returns on all
/// bytes, with an error where they are malformed, and never panics is assumed.
#[verifier::external_body]
fn decode_rgba(bytes: &[u8]) -> (r: Option<RawImage>)
    ensures
        match r {
            Some(i) => i.wf() && decoded_image(bytes@) == Some(
                (i.width as nat, i.height as nat, i.rgba@),
            ),
            None => decoded_image(bytes@) is None,
        },
{
    let reader = image::ImageReader::new(std::io::Cursor::new(bytes)).with_guessed_format().ok()?;
    let rgba = reader.decode().ok()?.to_rgba8();
    Some(RawImage { width: rgba.width(), height: rgba.height(), rgba: rgba.into_raw() })
}

/// Channels up to this one are dark: their light grows in proportion to their value.
pub const DARKEST: u8 = 10;

/// A channel times the alpha, a number out of 255, to the nearest integer.
pub open spec fn scaled_by_alpha(channel: u8, a: u8) -> int {
    (2 * channel * a + 255) / 510
}

/// What holds of a colour made of four channels by multiplying the alpha in: the alpha stays, an
/// opaque colour stays as it is, and a transparent one loses its colour. No channel grows, none
/// falls below its value scaled by the alpha, and a dark one becomes just that. Of two channels, the
/// darker one stays the darker, and channels that are equal stay equal.
pub open spec fn is_premultiplied(p: Color32, r: u8, g: u8, b: u8, a: u8) -> bool {
    &&& p.a == a
    &&& a == 255 ==> p.r == r && p.g == g && p.b == b
    &&& a == 0 ==> p.r == 0 && p.g == 0 && p.b == 0
    &&& scaled_by_alpha(r, a) <= p.r <= r
    &&& scaled_by_alpha(g, a) <= p.g <= g
    &&& scaled_by_alpha(b, a) <= p.b <= b
    &&& r <= DARKEST ==> p.r == scaled_by_alpha(r, a)
    &&& g <= DARKEST ==> p.g == scaled_by_alpha(g, a)
    &&& b <= DARKEST ==> p.b == scaled_by_alpha(b, a)
    &&& r <= g ==> p.r <= p.g
    &&& g <= r ==> p.g <= p.r
    &&& r <= b ==> p.r <= p.b
    &&& b <= r ==> p.b <= p.r
    &&& g <= b ==> p.g <= p.b
    &&& b <= g ==> p.b <= p.g
}

/// Multiplies the alpha of a colour into its other channels.
///
/// Calls `egui::Color32::from_rgba_unmultiplied`, which looks each channel up in a table by its
/// value and the alpha. The table is made in linear light. Up to the value ten a channel's light is
/// a multiple of its value, so that the channel is scaled by the alpha and rounded. Above, the light
/// is a floating-point power whose last digits differ between machines. Light grows faster than the
/// value, so that the channel comes out between its value and its value scaled by the alpha, and a
/// greater value comes out no smaller; a power that is right to one part in ten thousand is right
/// enough for that. Which value it is in between is not stated.
#[verifier::external_body]
fn premultiply(r: u8, g: u8, b: u8, a: u8) -> (p: Color32)
    ensures
        is_premultiplied(p, r, g, b, a),
{
    let c = eframe::egui::Color32::from_rgba_unmultiplied(r, g, b, a);
    Color32 { r: c.r(), g: c.g(), b: c.b(), a: c.a() }
}

/// Whether `image` shows the bytes of an image of the given size, each pixel with its alpha
/// multiplied in.
pub open spec fn shows_bytes(image: ColorImage, width: nat, height: nat, rgba: Seq<u8>) -> bool {
    &&& image.wf()
    &&& image.size[0] == width
    &&& image.size[1] == height
    &&& forall|i: int|
        0 <= i < image.pixels@.len() ==> is_premultiplied(
            #[trigger] image.pixels@[i],
            rgba[4 * i],
            rgba[4 * i + 1],
            rgba[4 * i + 2],
            rgba[4 * i + 3],
        )
}

/// The image that a decoder's bytes show.
pub fn color_image_from_rgba(raw: &RawImage) -> (image: ColorImage)
    requires
        raw.wf(),
    ensures
        shows_bytes(image, raw.width as nat, raw.height as nat, raw.rgba@),
{
    let n: usize = raw.rgba.len() / 4;
    let mut pixels: Vec<Color32> = Vec::new();
    let mut i: usize = 0;
    while i < n
        invariant
            i <= n,
            n * 4 == raw.rgba@.len(),
            raw.rgba@.len() <= usize::MAX,
            pixels@.len() == i,
            forall|j: int|
                0 <= j < i ==> is_premultiplied(
                    #[trigger] pixels@[j],
                    raw.rgba@[4 * j],
                    raw.rgba@[4 * j + 1],
                    raw.rgba@[4 * j + 2],
                    raw.rgba@[4 * j + 3],
                ),
        decreases n - i,
    {
        let at: usize = i * 4;
        pixels.push(premultiply(raw.rgba[at], raw.rgba[at + 1], raw.rgba[at + 2], raw.rgba[at + 3]));
        i += 1;
    }
    ColorImage { size: [raw.width as usize, raw.height as usize], pixels }
}

/// An image as the viewer holds it.
pub struct DecodedImage {
    pub pixels: ColorImage,
}

/// Whether the path names an image that only the system's own decoder reads.
pub open spec fn is_heic_path(p: crate::path::PathView) -> bool {
    has_extension(p, "heic"@) || has_extension(p, "heif"@)
}

/// Whether the path names a JPEG image.
pub open spec fn is_jpeg_path(p: crate::path::PathView) -> bool {
    has_extension(p, "jpg"@) || has_extension(p, "jpeg"@)
}

/// Whether the path names a JPEG image, which is decoded at half its size where it is large.
pub fn is_jpeg_file(path: &MediaPath) -> (r: bool)
    ensures
        r == is_jpeg_path(path@),
{
    extension_is(path, "jpg") || extension_is(path, "jpeg")
}

/// The size at which a JPEG image is decoded by the scaling decoder: half its width and height if
/// either exceeds `max_dim`, and not at all if neither does.
pub fn jpeg_half_size(width: u32, height: u32, max_dim: u32) -> (r: Option<(u32, u32)>)
    ensures
        r == if width <= max_dim && height <= max_dim {
            None
        } else {
            Some((width / 2, height / 2))
        },
{
    if width <= max_dim && height <= max_dim {
        None
    } else {
        Some((width / 2, height / 2))
    }
}

/// What is said of an image that only the system's own decoder could show, where there is none.
pub open spec fn no_system_decoder_text() -> Seq<char> {
    "WIC decoding is only available on Windows"@
}

/// Whether `r` is what is shown of an image that was left to the system's own decoder: the image
/// that the decoder made, or else its error; where the system has no such decoder, that is said.
pub open spec fn is_system_image(
    r: Result<ColorImage, String>,
    system: Option<Result<RawImage, String>>,
) -> bool {
    match system {
        Some(Ok(raw)) => r is Ok && shows_bytes(
            r->Ok_0,
            raw.width as nat,
            raw.height as nat,
            raw.rgba@,
        ),
        Some(Err(e)) => r is Err && r->Err_0@ == e@,
        None => r is Err && r->Err_0@ == no_system_decoder_text(),
    }
}

/// Whether what the system's own decoder answered can be shown: an image has as many bytes as its
/// size says.
pub open spec fn is_system_answer(system: Option<Result<RawImage, String>>) -> bool {
    system matches Some(Ok(raw)) ==> raw.wf()
}

/// What the system's own image decoder makes of a file. `system` is what it answered, `None` where
/// the system has none.
pub fn decode_with_wic(system: Option<Result<RawImage, String>>) -> (r: Result<ColorImage, String>)
    requires
        is_system_answer(system),
    ensures
        is_system_image(r, system),
{
    match system {
        Some(Ok(raw)) => Ok(color_image_from_rgba(&raw)),
        Some(Err(e)) => Err(e),
        None => Err(copy_text("WIC decoding is only available on Windows")),
    }
}

/// The pixels of a loaded image, or why there are none.
pub open spec fn loaded_pixels(r: Result<DecodedImage, String>) -> Result<ColorImage, String> {
    match r {
        Ok(image) => Ok(image.pixels),
        Err(e) => Err(e),
    }
}

impl DecodedImage {
    /// What is shown of a file, given what the decoder made of it: its image, or else what the
    /// system's own decoder makes of it.
    pub fn from_decoder(
        decoded: Option<&RawImage>,
        system: Option<Result<RawImage, String>>,
    ) -> (r: Result<DecodedImage, String>)
        requires
            decoded is Some ==> decoded->0.wf(),
            is_system_answer(system),
        ensures
            match decoded {
                Some(raw) => r is Ok && shows_bytes(
                    r->Ok_0.pixels,
                    raw.width as nat,
                    raw.height as nat,
                    raw.rgba@,
                ),
                None => is_system_image(loaded_pixels(r), system),
            },
    {
        match decoded {
            Some(raw) => Ok(DecodedImage { pixels: color_image_from_rgba(raw) }),
            None => match decode_with_wic(system) {
                Ok(pixels) => Ok(DecodedImage { pixels }),
                Err(e) => Err(e),
            },
        }
    }

    /// Loads an image from the bytes of its file, `None` where the file cannot be read.
    /// `half_jpeg` is what the scaling JPEG decoder returned, if it was asked and succeeded, and
    /// `system` what the system's own decoder answered, `None` where the system has none.
    ///
    /// HEIC images go to the system's own decoder. A JPEG image that was decoded at half its size
    /// is shown at that size. Everything else goes to the general decoder, and from there, where
    /// that fails, to the system's own.
    pub fn load(
        path: &MediaPath,
        bytes: Option<&Vec<u8>>,
        half_jpeg: Option<&RawImage>,
        system: Option<Result<RawImage, String>>,
    ) -> (r: Result<DecodedImage, String>)
        requires
            half_jpeg is Some ==> half_jpeg->0.wf(),
            is_system_answer(system),
        ensures
            is_heic_path(path@) ==> is_system_image(loaded_pixels(r), system),
            !is_heic_path(path@) && is_jpeg_path(path@) && half_jpeg is Some ==> r is Ok
                && shows_bytes(
                r->Ok_0.pixels,
                half_jpeg->0.width as nat,
                half_jpeg->0.height as nat,
                half_jpeg->0.rgba@,
            ),
            !is_heic_path(path@) && !(is_jpeg_path(path@) && half_jpeg is Some) ==> {
                let decoded = if bytes is Some {
                    decoded_image(bytes->0@)
                } else {
                    None
                };
                match decoded {
                    Some((w, h, rgba)) => r is Ok && shows_bytes(r->Ok_0.pixels, w, h, rgba),
                    None => is_system_image(loaded_pixels(r), system),
                }
            },
    {
        if extension_is(path, "heic") || extension_is(path, "heif") {
            return DecodedImage::from_decoder(None, system);
        }
        if is_jpeg_file(path) && half_jpeg.is_some() {
            return DecodedImage::from_decoder(half_jpeg, system);
        }
        match bytes {
            Some(data) => {
                let decoded = decode_rgba(data.as_slice());
                DecodedImage::from_decoder(decoded.as_ref(), system)
            },
            None => DecodedImage::from_decoder(None, system),
        }
    }
}

/// Up to a larger side of 2097150 the number of mip levels is one more than the whole logarithm of
/// the side: single precision rounds no such logarithm up to a whole number.
pub proof fn lemma_mip_count_is_exact(width: nat, height: nat)
    requires
        0 < greatest(width as int, height as int) < 0x1f_ffff,
    ensures
        mip_count(width, height) == whole_log(greatest(width as int, height as int) as nat) + 1,
{
    let side = greatest(width as int, height as int) as nat;
    lemma2_to64();
    assert(excess_bits(side, LEAST_24_BITS as nat) == 0);
    assert(nearest(side, 1) == side);
    assert(in_single(side) == side);
    lemma_log_bounds(side);
    let k = whole_log(side);
    if k >= 21 {
        if k > 21 {
            vstd::arithmetic::power2::lemma_pow2_strictly_increases(21, k);
        }
    } else {
        if k < 19 {
            vstd::arithmetic::power2::lemma_pow2_strictly_increases(k + 1, 20);
        }
    }
}

/// The mip levels of a texture lead from its larger side down to a single pixel, and no further:
/// halved once for each level after the first, the side is one, and before that it is more. This
/// holds wherever single precision does not round the logarithm of the side up to a whole number.
pub proof fn lemma_mip_chain_ends(width: nat, height: nat, k: nat)
    requires
        greatest(width as int, height as int) > 0,
        mip_count(width, height) == whole_log(greatest(width as int, height as int) as nat) + 1,
        k < mip_count(width, height),
    ensures
        ({
            let side = greatest(width as int, height as int);
            let last = (mip_count(width, height) - 1) as nat;
            &&& side / pow2(last) as int == 1
            &&& k < last ==> side / pow2(k) as int > 1
        }),
{
    let side = greatest(width as int, height as int);
    let levels = mip_count(width, height);
    lemma_log_bounds(side as nat);
    let last = (levels - 1) as nat;
    lemma_pow2_unfold(levels as nat);
    vstd::arithmetic::power2::lemma_pow2_pos(last);
    vstd::arithmetic::power2::lemma_pow2_pos(k);
    let p = pow2(last) as int;
    assert(side / p == 1) by (nonlinear_arith)
        requires
            0 < p <= side < 2 * p,
    ;
    if k < last {
        let q = pow2(k) as int;
        if k + 1 < last {
            vstd::arithmetic::power2::lemma_pow2_strictly_increases(k + 1, last);
        }
        lemma_pow2_unfold(k + 1);
        assert(side / q >= 2) by (nonlinear_arith)
            requires
                0 < q,
                2 * q <= side,
        ;
    }
}

/// An image is halved until it fits, and not once more: its sides fit after the last halving, and
/// one did not before it.
pub proof fn lemma_halved_to_fit(width: nat, height: nat, max: nat)
    ensures
        ({
            let k = halvings(width, height, max);
            &&& width / pow2(k) <= max && height / pow2(k) <= max
            &&& k > 0 ==> width / pow2((k - 1) as nat) > max || height / pow2((k - 1) as nat) > max
        }),
    decreases width + height,
{
    lemma2_to64();
    let k = halvings(width, height, max);
    if width <= max && height <= max {
        assert(width / 1 == width && height / 1 == height);
    } else {
        lemma_halved_to_fit(width / 2, height / 2, max);
        let n = (k - 1) as nat;
        lemma_halve_first(width, n);
        lemma_halve_first(height, n);
        if n > 0 {
            lemma_halve_first(width, (n - 1) as nat);
            lemma_halve_first(height, (n - 1) as nat);
        } else {
            assert(width / 1 == width && height / 1 == height);
        }
    }
}

proof fn lemma_halve_first(n: nat, k: nat)
    ensures
        (n / 2) / pow2(k) == n / pow2(k + 1),
{
    vstd::arithmetic::power2::lemma_pow2_pos(k);
    lemma_pow2_unfold(k + 1);
    vstd::arithmetic::div_mod::lemma_div_denominator(n as int, 2, pow2(k) as int);
}

} // verus!
