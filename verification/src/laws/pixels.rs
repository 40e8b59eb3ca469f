//! What is uploaded of an image.

use vstd::prelude::*;

verus! {

use crate::image_decode::{
    byte_at, halvings, is_box_half, is_nearest_half, is_nearest_half_of_pixels, is_premultiplied,
    is_system_image, pixel_bytes, shows_bytes, shows_halved, Color32, ColorImage, RawImage,
};
use vstd::arithmetic::power2::pow2;

/// The four bytes of pixel `i` are its red, green, blue and alpha, in this order.
pub open spec fn bytes_show(data: Seq<u8>, i: int, p: Color32) -> bool {
    &&& data[4 * i] == p.r
    &&& data[4 * i + 1] == p.g
    &&& data[4 * i + 2] == p.b
    &&& data[4 * i + 3] == p.a
}

/// The bytes of an image are those of its pixels, one after the other, red first.
pub proof fn law_bytes_of_pixels(pixels: Seq<Color32>)
    ensures
        pixel_bytes(pixels).len() == 4 * pixels.len(),
        forall|i: int|
            0 <= i < pixels.len() ==> bytes_show(pixel_bytes(pixels), i, #[trigger] pixels[i]),
{
    let data = pixel_bytes(pixels);
    assert forall|i: int| 0 <= i < pixels.len() implies bytes_show(data, i, #[trigger] pixels[i]) by {
        assert((4 * i) / 4 == i && (4 * i) % 4 == 0);
        assert((4 * i + 1) / 4 == i && (4 * i + 1) % 4 == 1);
        assert((4 * i + 2) / 4 == i && (4 * i + 2) % 4 == 2);
        assert((4 * i + 3) / 4 == i && (4 * i + 3) % 4 == 3);
    }
}

/// An image without transparent pixels is shown as it was decoded: pixel by pixel, each with its
/// own red, green and blue.
pub proof fn law_opaque_image_is_kept(image: ColorImage, width: nat, height: nat, rgba: Seq<u8>)
    requires
        shows_bytes(image, width, height, rgba),
    ensures
        image.size[0] == width,
        image.size[1] == height,
        image.pixels@.len() == width * height,
        forall|i: int|
            0 <= i < width * height && rgba[4 * i + 3] == 255 ==> bytes_show(
                rgba,
                i,
                #[trigger] image.pixels@[i],
            ),
        forall|i: int|
            0 <= i < width * height ==> (#[trigger] image.pixels@[i]).a == rgba[4 * i + 3],
{
}

/// What is uploaded of an image without transparent pixels is what was decoded: the very bytes,
/// where the image fits; and where it was halved, each pixel is one of the decoded ones, four
/// consecutive bytes of them, taken at even distances.
pub proof fn law_upload_shows_what_was_decoded(
    raw: RawImage,
    image: ColorImage,
    data: Seq<u8>,
    max_dim: nat,
    k: nat,
    x: int,
    y: int,
    c: int,
)
    requires
        raw.rgba@.len() == raw.width * raw.height * 4,
        forall|i: int|
            0 <= i < raw.width * raw.height ==> #[trigger] raw.rgba@[4 * i + 3] == 255,
        shows_bytes(image, raw.width as nat, raw.height as nat, raw.rgba@),
        k == halvings(raw.width as nat, raw.height as nat, max_dim),
        shows_halved(data, image.pixels@, raw.width as nat, raw.height as nat, k),
    ensures
        raw.width <= max_dim && raw.height <= max_dim ==> data == raw.rgba@,
        ({
            let step = pow2(k) as int;
            let w = raw.width as int / step;
            let h = raw.height as int / step;
            &&& data.len() == w * h * 4
            &&& 0 <= x < w && 0 <= y < h && 0 <= c < 4 ==> data[(y * w + x) * 4 + c]
                == raw.rgba@[(y * step * raw.width + x * step) * 4 + c]
        }),
{
    let step = pow2(k) as int;
    vstd::arithmetic::power2::lemma_pow2_pos(k);
    let (iw, ih) = (raw.width as int, raw.height as int);
    let w = iw / step;
    let h = ih / step;
    if 0 <= x < w && 0 <= y < h && 0 <= c < 4 {
        lemma_uploaded_byte(raw, image, data, k, x, y, c);
    }
    if raw.width <= max_dim && raw.height <= max_dim {
        vstd::arithmetic::power2::lemma2_to64();
        assert(k == 0 && step == 1);
        assert(w == iw && h == ih);
        assert forall|m: int| 0 <= m < data.len() implies #[trigger] data[m] == raw.rgba@[m] by {
            let e = m % 4;
            let p = m / 4;
            let v = p / w;
            let u = p % w;
            assert(w > 0 && 0 <= u < w && 0 <= v < h && p == v * w + u) by (nonlinear_arith)
                requires
                    0 <= p < w * h,
                    v == p / w,
                    u == p % w,
                    w >= 0,
                    h >= 0,
            ;
            lemma_uploaded_byte(raw, image, data, k, u, v, e);
            assert(m == (v * w + u) * 4 + e);
            assert(v * step * iw + u * step == v * w + u) by (nonlinear_arith)
                requires
                    step == 1,
                    iw == w,
            ;
        }
        assert(data =~= raw.rgba@);
    }
}

/// One byte of what is uploaded.
proof fn lemma_uploaded_byte(
    raw: RawImage,
    image: ColorImage,
    data: Seq<u8>,
    k: nat,
    x: int,
    y: int,
    c: int,
)
    requires
        forall|i: int|
            0 <= i < raw.width * raw.height ==> #[trigger] raw.rgba@[4 * i + 3] == 255,
        shows_bytes(image, raw.width as nat, raw.height as nat, raw.rgba@),
        shows_halved(data, image.pixels@, raw.width as nat, raw.height as nat, k),
        0 <= x < raw.width as int / pow2(k) as int,
        0 <= y < raw.height as int / pow2(k) as int,
        0 <= c < 4,
    ensures
        data[(y * (raw.width as int / pow2(k) as int) + x) * 4 + c] == raw.rgba@[(y * pow2(k)
            * raw.width + x * pow2(k)) * 4 + c],
{
    let step = pow2(k) as int;
    vstd::arithmetic::power2::lemma_pow2_pos(k);
    let (iw, ih) = (raw.width as int, raw.height as int);
    let w = iw / step;
    let px = image.pixels@;
    let q = y * step * iw + x * step;
    lemma_source_in_image(x, y, iw, ih, step);
    assert(byte_at(data, w, x, y, c) == crate::image_decode::channel(px[q], c));
    assert(raw.rgba@[4 * q + 3] == 255);
    assert(bytes_show(raw.rgba@, q, px[q]));
}

/// The pixel that a halved image takes for the one at `x` and `y` lies in the image.
proof fn lemma_source_in_image(x: int, y: int, width: int, height: int, step: int)
    requires
        step > 0,
        width >= 0,
        height >= 0,
        0 <= x < width / step,
        0 <= y < height / step,
    ensures
        0 <= y * step * width + x * step < width * height,
{
    vstd::arithmetic::div_mod::lemma_fundamental_div_mod(width, step);
    vstd::arithmetic::div_mod::lemma_fundamental_div_mod(height, step);
    let (xs, ys) = (x * step, y * step);
    assert(0 <= xs < width) by (nonlinear_arith)
        requires
            xs == x * step,
            0 <= x,
            x + 1 <= width / step,
            width == step * (width / step) + width % step,
            0 <= width % step,
            step > 0,
    ;
    assert(0 <= ys < height) by (nonlinear_arith)
        requires
            ys == y * step,
            0 <= y,
            y + 1 <= height / step,
            height == step * (height / step) + height % step,
            0 <= height % step,
            step > 0,
    ;
    assert(0 <= ys * width + xs < width * height) by (nonlinear_arith)
        requires
            0 <= xs < width,
            0 <= ys,
            ys + 1 <= height,
    ;
}

/// Halving takes every second pixel of every second row, with all its four bytes.
pub proof fn law_nearest_half(
    out: Seq<u8>,
    src: Seq<u8>,
    pixels: Seq<Color32>,
    width: int,
    height: int,
    x: int,
    y: int,
)
    requires
        0 <= x < width / 2,
        0 <= y < height / 2,
    ensures
        is_nearest_half(out, src, width, height) ==> out.len() == (width / 2) * (height / 2) * 4
            && forall|c: int|
            0 <= c < 4 ==> out[4 * (y * (width / 2) + x) + c] == #[trigger] src[4 * (2 * y * width + 2
                * x) + c],
        is_nearest_half_of_pixels(out, pixels, width, height) ==> bytes_show(
            out,
            y * (width / 2) + x,
            pixels[2 * y * width + 2 * x],
        ),
{
    let w = width / 2;
    let p = y * w + x;
    if is_nearest_half(out, src, width, height) {
        assert forall|c: int| 0 <= c < 4 implies out[4 * p + c] == #[trigger] src[4 * (2 * y * width
            + 2 * x) + c] by {
            assert(byte_at(out, w, x, y, c) == byte_at(src, width, 2 * x, 2 * y, c));
        }
    }
    if is_nearest_half_of_pixels(out, pixels, width, height) {
        let q = pixels[2 * y * width + 2 * x];
        assert(byte_at(out, w, x, y, 0) == crate::image_decode::channel(q, 0));
        assert(byte_at(out, w, x, y, 1) == crate::image_decode::channel(q, 1));
        assert(byte_at(out, w, x, y, 2) == crate::image_decode::channel(q, 2));
        assert(byte_at(out, w, x, y, 3) == crate::image_decode::channel(q, 3));
    }
}

/// A pixel of a mip level is the mean of the four that it stands for, each of the four bytes for
/// itself, and rounded down. Beyond the last column and the last row, these count again.
pub proof fn law_box_half(
    out: Seq<u8>,
    src: Seq<u8>,
    width: int,
    height: int,
    x: int,
    y: int,
    c: int,
    w: int,
    h: int,
)
    requires
        is_box_half(out, src, width, height),
        width >= 1,
        height >= 1,
        w == if width == 1 {
            1
        } else {
            width / 2
        },
        h == if height == 1 {
            1
        } else {
            height / 2
        },
        0 <= x < w,
        0 <= y < h,
        0 <= c < 4,
    ensures
        out.len() == w * h * 4,
        ({
            let right = if 2 * x + 1 < width {
                2 * x + 1
            } else {
                width - 1
            };
            let below = if 2 * y + 1 < height {
                2 * y + 1
            } else {
                height - 1
            };
            let at = |i: int, j: int| src[(j * width + i) * 4 + c] as int;
            let sum = at(2 * x, 2 * y) + at(right, 2 * y) + at(2 * x, below) + at(right, below);
            let mean = out[(y * w + x) * 4 + c] as int;
            4 * mean <= sum < 4 * (mean + 1)
        }),
{
    assert(byte_at(out, w, x, y, c) == crate::image_decode::box_mean(src, width, height, x, y, c));
    assert(2 * x < width && 2 * y < height);
}

/// An image that only the system's own decoder can show is shown as that decoder made it; where it
/// could make nothing of it, its reason is told.
pub proof fn law_system_image(
    r: Result<ColorImage, String>,
    raw: RawImage,
    reason: String,
    i: int,
)
    ensures
        is_system_image(r, Some(Ok(raw))) && 0 <= i < raw.width * raw.height && raw.rgba@[4 * i + 3]
            == 255 ==> r is Ok && r->Ok_0.size[0] == raw.width && r->Ok_0.size[1] == raw.height
            && bytes_show(raw.rgba@, i, r->Ok_0.pixels@[i]),
        is_system_image(r, Some(Err(reason))) ==> r is Err && r->Err_0@ == reason@,
        is_system_image(r, None) ==> r is Err && r->Err_0@
            == "WIC decoding is only available on Windows"@,
{
}

/// A colour that is seen through loses light: each of its channels stands between itself and its
/// share of the alpha, and the channels of a dark colour become just that share, to the nearest
/// number.
pub proof fn law_premultiplied(p: Color32, r: u8, g: u8, b: u8, a: u8)
    requires
        is_premultiplied(p, r, g, b, a),
    ensures
        p.a == a,
        a == 255 ==> p.r == r && p.g == g && p.b == b,
        a == 0 ==> p.r == 0 && p.g == 0 && p.b == 0,
        2 * r * a - 255 <= 510 * p.r <= 510 * r,
        2 * g * a - 255 <= 510 * p.g <= 510 * g,
        2 * b * a - 255 <= 510 * p.b <= 510 * b,
        r <= 10 ==> 510 * p.r <= 2 * r * a + 255,
        g <= 10 ==> 510 * p.g <= 2 * g * a + 255,
        b <= 10 ==> 510 * p.b <= 2 * b * a + 255,
        r <= g ==> p.r <= p.g,
        g <= b ==> p.g <= p.b,
        b <= r ==> p.b <= p.r,
        g <= r ==> p.g <= p.r,
        b <= g ==> p.b <= p.g,
        r <= b ==> p.r <= p.b,
{
}

} // verus!
