use vstd::prelude::*;
use std::collections::HashMap;
use vstd::arithmetic::div_mod::{
    lemma_fundamental_div_mod_converse,
    lemma_multiply_divide_lt,
};

verus! {

/// Position `k` of an RGBA buffer `ow` pixels wide: column, row and channel.
pub open spec fn pixel_x(k: int, ow: int) -> int {
    (k / 4) % ow
}

pub open spec fn pixel_y(k: int, ow: int) -> int {
    (k / 4) / ow
}

pub open spec fn channel(k: int) -> int {
    k % 4
}

/// Source column (or row) that output column `x` of `out` maps onto when
/// `src` columns are stretched to `out`: `floor(x * src / out)`.
pub open spec fn scaled(x: int, src: int, out: int) -> int {
    (x * src) / out
}

/// The remainder of that division: the fractional weight, in units of `1/out`.
pub open spec fn scaled_frac(x: int, src: int, out: int) -> int {
    (x * src) % out
}

/// The next source column after `i`, clamped to the last one.
pub open spec fn next_clamped(i: int, n: int) -> int {
    if i + 1 < n { i + 1 } else { n - 1 }
}

/// Byte offset of channel `ch` of pixel `(x, y)` in a buffer `w` pixels wide.
pub open spec fn byte_at(x: int, y: int, w: int, ch: int) -> int {
    (y * w + x) * 4 + ch
}

/// Byte `k` of the nearest-neighbour resampling of `src` (`sw` x `sh`) to
/// `ow` x `oh`.
pub open spec fn nearest_byte(src: Seq<u8>, sw: int, sh: int, ow: int, oh: int, k: int) -> u8 {
    let x = pixel_x(k, ow);
    let y = pixel_y(k, ow);
    src[byte_at(scaled(x, sw, ow), scaled(y, sh, oh), sw, channel(k))]
}

/// The nearest-neighbour resampling of `src` (`sw` x `sh`) to `ow` x `oh`.
pub open spec fn nearest_image(src: Seq<u8>, sw: int, sh: int, ow: int, oh: int) -> Seq<u8> {
    Seq::new((ow * oh * 4) as nat, |k: int| nearest_byte(src, sw, sh, ow, oh, k))
}

/// Linear interpolation between four corner values, first along x with weight
/// `rx / ow`, then along y with weight `ry / oh`, rounded to the nearest
/// integer (halves upward). Written over the common denominator `ow * oh`.
pub open spec fn blend(
    c00: int,
    c10: int,
    c01: int,
    c11: int,
    rx: int,
    ry: int,
    ow: int,
    oh: int,
) -> int {
    let num = c00 * ((ow - rx) * (oh - ry)) + c10 * (rx * (oh - ry)) + c01 * ((ow - rx) * ry) + c11 * (
    rx * ry);
    (2 * num + ow * oh) / (2 * (ow * oh))
}

/// Byte `k` of the bilinear resampling of `src` (`sw` x `sh`) to `ow` x `oh`,
/// with the lower+1 neighbour clamped to the last row and column.
pub open spec fn bilinear_byte(src: Seq<u8>, sw: int, sh: int, ow: int, oh: int, k: int) -> int {
    let x = pixel_x(k, ow);
    let y = pixel_y(k, ow);
    let ch = channel(k);
    let x0 = scaled(x, sw, ow);
    let y0 = scaled(y, sh, oh);
    let x1 = next_clamped(x0, sw);
    let y1 = next_clamped(y0, sh);
    blend(
        src[byte_at(x0, y0, sw, ch)] as int,
        src[byte_at(x1, y0, sw, ch)] as int,
        src[byte_at(x0, y1, sw, ch)] as int,
        src[byte_at(x1, y1, sw, ch)] as int,
        scaled_frac(x, sw, ow),
        scaled_frac(y, sh, oh),
        ow,
        oh,
    )
}

/// The bilinear resampling of `src` (`sw` x `sh`) to `ow` x `oh`.
pub open spec fn bilinear_image(src: Seq<u8>, sw: int, sh: int, ow: int, oh: int) -> Seq<u8> {
    Seq::new((ow * oh * 4) as nat, |k: int| bilinear_byte(src, sw, sh, ow, oh, k) as u8)
}

/// What a resampling source must satisfy: non-empty dimensions and at least
/// `sw * sh * 4` bytes.
pub open spec fn valid_source(src: Seq<u8>, sw: int, sh: int) -> bool {
    &&& sw > 0
    &&& sh > 0
    &&& src.len() >= sw * sh * 4
}

/// An output of `ow` x `oh` RGBA pixels fits in memory.
pub open spec fn output_fits(ow: int, oh: int) -> bool {
    ow * oh * 4 <= usize::MAX
}

proof fn lemma_empty_output(ow: int, oh: int)
    requires
        ow == 0 || oh == 0,
    ensures
        ow * oh * 4 == 0,
{
    assert(ow * oh == 0) by (nonlinear_arith)
        requires
            ow == 0 || oh == 0,
    ;
}

proof fn lemma_position(x: int, y: int, ow: int, ch: int)
    requires
        0 <= x < ow,
        0 <= y,
        0 <= ch < 4,
    ensures
        pixel_x(byte_at(x, y, ow, ch), ow) == x,
        pixel_y(byte_at(x, y, ow, ch), ow) == y,
        channel(byte_at(x, y, ow, ch)) == ch,
{
    let p = y * ow + x;
    lemma_fundamental_div_mod_converse(byte_at(x, y, ow, ch), 4, p, ch);
    lemma_fundamental_div_mod_converse(p, ow, y, x);
}

proof fn lemma_scaled_bounds(x: int, src: int, out: int)
    requires
        0 <= x < out,
        src > 0,
    ensures
        0 <= scaled(x, src, out) < src,
        0 <= scaled_frac(x, src, out) < out,
{
    assert(x * src < out * src) by (nonlinear_arith)
        requires
            0 <= x < out,
            src > 0,
    ;
    assert(0 <= x * src) by (nonlinear_arith)
        requires
            0 <= x,
            src > 0,
    ;
    lemma_multiply_divide_lt(x * src, out, src);
}

proof fn lemma_byte_in_source(x: int, y: int, sw: int, sh: int, ch: int)
    requires
        0 <= x < sw,
        0 <= y < sh,
        0 <= ch < 4,
    ensures
        0 <= byte_at(x, y, sw, ch),
        byte_at(x, y, sw, ch) + (4 - ch) <= sw * sh * 4,
{
    assert(0 <= y * sw + x && y * sw + x + 1 <= sw * sh) by (nonlinear_arith)
        requires
            0 <= x < sw,
            0 <= y < sh,
    ;
}

proof fn lemma_blend_range(
    c00: int,
    c10: int,
    c01: int,
    c11: int,
    rx: int,
    ry: int,
    ow: int,
    oh: int,
)
    requires
        0 <= c00 <= 255,
        0 <= c10 <= 255,
        0 <= c01 <= 255,
        0 <= c11 <= 255,
        0 <= rx < ow,
        0 <= ry < oh,
    ensures
        0 <= blend(c00, c10, c01, c11, rx, ry, ow, oh) <= 255,
{
    let a = (ow - rx) * (oh - ry);
    let b = rx * (oh - ry);
    let c = (ow - rx) * ry;
    let d = rx * ry;
    assert(0 <= a && 0 <= b && 0 <= c && 0 <= d && a + b + c + d == ow * oh) by (nonlinear_arith)
        requires
            0 <= rx < ow,
            0 <= ry < oh,
            a == (ow - rx) * (oh - ry),
            b == rx * (oh - ry),
            c == (ow - rx) * ry,
            d == rx * ry,
    ;
    let num = c00 * a + c10 * b + c01 * c + c11 * d;
    assert(0 <= num <= 255 * (a + b + c + d)) by (nonlinear_arith)
        requires
            0 <= c00 <= 255,
            0 <= c10 <= 255,
            0 <= c01 <= 255,
            0 <= c11 <= 255,
            0 <= a,
            0 <= b,
            0 <= c,
            0 <= d,
            num == c00 * a + c10 * b + c01 * c + c11 * d,
    ;
    let den = ow * oh;
    assert(den > 0) by (nonlinear_arith)
        requires
            0 <= rx < ow,
            0 <= ry < oh,
            den == ow * oh,
    ;
    assert(2 * num + den < (2 * den) * 256);
    lemma_multiply_divide_lt(2 * num + den, 2 * den, 256);
    assert(0 <= (2 * num + den) / (2 * den)) by (nonlinear_arith)
        requires
            0 <= 2 * num + den,
            0 < 2 * den,
    ;
}

/// Every byte that bilinear interpolation computes lies in `[0, 255]`
/// before it is narrowed to a byte, whatever the source bytes are: the
/// interpolation never leaves the range of its four corners.
pub proof fn lemma_bilinear_in_range(src: Seq<u8>, sw: int, sh: int, ow: int, oh: int, k: int)
    requires
        valid_source(src, sw, sh),
        ow > 0,
        oh > 0,
        0 <= k < ow * oh * 4,
    ensures
        0 <= bilinear_byte(src, sw, sh, ow, oh, k) <= 255,
        bilinear_image(src, sw, sh, ow, oh)[k] as int == bilinear_byte(src, sw, sh, ow, oh, k),
{
    let x = pixel_x(k, ow);
    let y = pixel_y(k, ow);
    lemma_pixel_of_index(k, ow, oh);
    lemma_scaled_bounds(x, sw, ow);
    lemma_scaled_bounds(y, sh, oh);
    let x0 = scaled(x, sw, ow);
    let y0 = scaled(y, sh, oh);
    let ch = channel(k);
    lemma_byte_in_source(x0, y0, sw, sh, ch);
    lemma_byte_in_source(next_clamped(x0, sw), y0, sw, sh, ch);
    lemma_byte_in_source(x0, next_clamped(y0, sh), sw, sh, ch);
    lemma_byte_in_source(next_clamped(x0, sw), next_clamped(y0, sh), sw, sh, ch);
    lemma_blend_range(
        src[byte_at(x0, y0, sw, ch)] as int,
        src[byte_at(next_clamped(x0, sw), y0, sw, ch)] as int,
        src[byte_at(x0, next_clamped(y0, sh), sw, ch)] as int,
        src[byte_at(next_clamped(x0, sw), next_clamped(y0, sh), sw, ch)] as int,
        scaled_frac(x, sw, ow),
        scaled_frac(y, sh, oh),
        ow,
        oh,
    );
}

proof fn lemma_pixel_of_index(k: int, ow: int, oh: int)
    requires
        ow > 0,
        oh > 0,
        0 <= k < ow * oh * 4,
    ensures
        0 <= pixel_x(k, ow) < ow,
        0 <= pixel_y(k, ow) < oh,
        0 <= channel(k) < 4,
        k == byte_at(pixel_x(k, ow), pixel_y(k, ow), ow, channel(k)),
{
    let p = k / 4;
    assert(p < ow * oh);
    assert(p / ow < oh) by {
        lemma_multiply_divide_lt(p, ow, oh);
    }
    assert(0 <= p / ow) by (nonlinear_arith)
        requires
            0 <= p,
            ow > 0,
    ;
    assert(p == (p / ow) * ow + p % ow) by (nonlinear_arith)
        requires
            ow > 0,
    ;
}

/// Resampling an image to its own dimensions with nearest-neighbour sampling
/// gives back its pixels byte for byte.
pub proof fn lemma_nearest_same_size_is_identity(src: Seq<u8>, w: int, h: int)
    requires
        valid_source(src, w, h),
    ensures
        nearest_image(src, w, h, w, h) == src.subrange(0, w * h * 4),
{
    let r = nearest_image(src, w, h, w, h);
    assert(w * h * 4 >= 0) by (nonlinear_arith)
        requires
            w > 0,
            h > 0,
    ;
    assert forall|k: int| 0 <= k < w * h * 4 implies r[k] == src[k] by {
        lemma_pixel_of_index(k, w, h);
        let x = pixel_x(k, w);
        let y = pixel_y(k, w);
        lemma_fundamental_div_mod_converse(x * w, w, x, 0);
        lemma_fundamental_div_mod_converse(y * h, h, y, 0);
    }
    assert(r =~= src.subrange(0, w * h * 4));
}

/// Nearest-neighbour resampling of the RGBA image `src` (`sw` x `sh` pixels)
/// to `ow` x `oh` pixels: output pixel `(x, y)` copies source pixel
/// `(floor(x * sw / ow), floor(y * sh / oh))`. A zero output dimension gives
/// an empty buffer.
pub fn resize_nearest_rgba(src: &[u8], sw: u32, sh: u32, ow: u32, oh: u32) -> (r: Vec<u8>)
    requires
        valid_source(src@, sw as int, sh as int),
        output_fits(ow as int, oh as int),
    ensures
        r@ == nearest_image(src@, sw as int, sh as int, ow as int, oh as int),
{
    let mut dst: Vec<u8> = Vec::new();
    if ow == 0 || oh == 0 {
        proof {
            lemma_empty_output(ow as int, oh as int);
        }
        assert(dst@ =~= nearest_image(src@, sw as int, sh as int, ow as int, oh as int));
        return dst;
    }
    let src_len: usize = src.len();
    let mut y: u32 = 0;
    while y < oh
        invariant
            src@.len() == src_len,
            valid_source(src@, sw as int, sh as int),
            ow > 0,
            oh > 0,
            y <= oh,
            dst@.len() == (y * ow) * 4,
            forall|k: int|
                0 <= k < dst@.len() ==> dst@[k] == nearest_byte(
                    src@,
                    sw as int,
                    sh as int,
                    ow as int,
                    oh as int,
                    k,
                ),
        decreases oh - y,
    {
        assert((y as int) * (sh as int) <= u64::MAX) by (nonlinear_arith)
            requires
                y <= u32::MAX,
                sh <= u32::MAX,
        ;
        let sy: u64 = (y as u64 * sh as u64) / oh as u64;
        proof {
            lemma_scaled_bounds(y as int, sh as int, oh as int);
        }
        let mut x: u32 = 0;
        while x < ow
            invariant
                src@.len() == src_len,
                valid_source(src@, sw as int, sh as int),
                ow > 0,
                oh > 0,
                y < oh,
                x <= ow,
                sy == scaled(y as int, sh as int, oh as int),
                sy < sh,
                dst@.len() == (y * ow + x) * 4,
                forall|k: int|
                    0 <= k < dst@.len() ==> dst@[k] == nearest_byte(
                        src@,
                        sw as int,
                        sh as int,
                        ow as int,
                        oh as int,
                        k,
                    ),
            decreases ow - x,
        {
            assert((x as int) * (sw as int) <= u64::MAX) by (nonlinear_arith)
                requires
                    x <= u32::MAX,
                    sw <= u32::MAX,
            ;
            let sx: u64 = (x as u64 * sw as u64) / ow as u64;
            proof {
                lemma_scaled_bounds(x as int, sw as int, ow as int);
                lemma_byte_in_source(sx as int, sy as int, sw as int, sh as int, 0);
            }
            let si: usize = ((sy as usize) * (sw as usize) + sx as usize) * 4;
            let mut ch: usize = 0;
            while ch < 4
                invariant
                    valid_source(src@, sw as int, sh as int),
                    ow > 0,
                    oh > 0,
                    y < oh,
                    x < ow,
                    ch <= 4,
                    sy == scaled(y as int, sh as int, oh as int),
                    sx == scaled(x as int, sw as int, ow as int),
                    si == byte_at(sx as int, sy as int, sw as int, 0),
                    si + 4 <= sw * sh * 4,
                    dst@.len() == (y * ow + x) * 4 + ch,
                    forall|k: int|
                        0 <= k < dst@.len() ==> dst@[k] == nearest_byte(
                            src@,
                            sw as int,
                            sh as int,
                            ow as int,
                            oh as int,
                            k,
                        ),
                decreases 4 - ch,
            {
                proof {
                    lemma_position(x as int, y as int, ow as int, ch as int);
                }
                dst.push(src[si + ch]);
                ch = ch + 1;
            }
            x = x + 1;
        }
        assert((y + 1) * ow == y * ow + ow) by (nonlinear_arith);
        y = y + 1;
    }
    assert(dst@ =~= nearest_image(src@, sw as int, sh as int, ow as int, oh as int)) by {
        assert(oh * ow == ow * oh) by (nonlinear_arith);
    }
    dst
}

/// One interpolated channel value: `blend` computed in 128-bit integers, which
/// hold every intermediate product exactly for 32-bit dimensions.
fn blend_channel(c00: u8, c10: u8, c01: u8, c11: u8, rx: u64, ry: u64, ow: u64, oh: u64) -> (v: u8)
    requires
        rx < ow <= u32::MAX,
        ry < oh <= u32::MAX,
    ensures
        v as int == blend(
            c00 as int,
            c10 as int,
            c01 as int,
            c11 as int,
            rx as int,
            ry as int,
            ow as int,
            oh as int,
        ),
{
    let wx1: u128 = rx as u128;
    let wx0: u128 = (ow - rx) as u128;
    let wy1: u128 = ry as u128;
    let wy0: u128 = (oh - ry) as u128;
    assert(wx0 * wy0 <= 0xffff_ffff_ffff_ffff && wx1 * wy0 <= 0xffff_ffff_ffff_ffff && wx0 * wy1
        <= 0xffff_ffff_ffff_ffff && wx1 * wy1 <= 0xffff_ffff_ffff_ffff && (ow as int) * (oh as int)
        <= 0xffff_ffff_ffff_ffff) by (nonlinear_arith)
        requires
            wx0 <= u32::MAX,
            wx1 <= u32::MAX,
            wy0 <= u32::MAX,
            wy1 <= u32::MAX,
            ow <= u32::MAX,
            oh <= u32::MAX,
    ;
    let a: u128 = wx0 * wy0;
    let b: u128 = wx1 * wy0;
    let c: u128 = wx0 * wy1;
    let d: u128 = wx1 * wy1;
    assert((c00 as int) * a <= 255 * 0xffff_ffff_ffff_ffff && (c10 as int) * b <= 255
        * 0xffff_ffff_ffff_ffff && (c01 as int) * c <= 255 * 0xffff_ffff_ffff_ffff && (c11 as int)
        * d <= 255 * 0xffff_ffff_ffff_ffff) by (nonlinear_arith)
        requires
            c00 <= 255,
            c10 <= 255,
            c01 <= 255,
            c11 <= 255,
            a <= 0xffff_ffff_ffff_ffff,
            b <= 0xffff_ffff_ffff_ffff,
            c <= 0xffff_ffff_ffff_ffff,
            d <= 0xffff_ffff_ffff_ffff,
    ;
    let num: u128 = c00 as u128 * a + c10 as u128 * b + c01 as u128 * c + c11 as u128 * d;
    let den: u128 = ow as u128 * oh as u128;
    assert(den > 0) by (nonlinear_arith)
        requires
            den == (ow as int) * (oh as int),
            rx < ow,
            ry < oh,
    ;
    let q: u128 = (2 * num + den) / (2 * den);
    proof {
        lemma_blend_range(
            c00 as int,
            c10 as int,
            c01 as int,
            c11 as int,
            rx as int,
            ry as int,
            ow as int,
            oh as int,
        );
    }
    q as u8
}

/// Bilinear resampling of the RGBA image `src` (`sw` x `sh` pixels) to
/// `ow` x `oh` pixels. Output pixel `(x, y)` reads the source at
/// `(x * sw / ow, y * sh / oh)`: the floor gives the lower neighbour, the next
/// row and column are clamped to the image, and the four neighbours are
/// interpolated by the fractional parts and rounded. A zero output dimension
/// gives an empty buffer.
pub fn resize_bilinear_rgba(src: &[u8], sw: u32, sh: u32, ow: u32, oh: u32) -> (r: Vec<u8>)
    requires
        valid_source(src@, sw as int, sh as int),
        output_fits(ow as int, oh as int),
    ensures
        r@ == bilinear_image(src@, sw as int, sh as int, ow as int, oh as int),
{
    let mut dst: Vec<u8> = Vec::new();
    if ow == 0 || oh == 0 {
        proof {
            lemma_empty_output(ow as int, oh as int);
        }
        assert(dst@ =~= bilinear_image(src@, sw as int, sh as int, ow as int, oh as int));
        return dst;
    }
    let src_len: usize = src.len();
    let mut y: u32 = 0;
    while y < oh
        invariant
            src@.len() == src_len,
            valid_source(src@, sw as int, sh as int),
            ow > 0,
            oh > 0,
            y <= oh,
            dst@.len() == (y * ow) * 4,
            forall|k: int|
                0 <= k < dst@.len() ==> dst@[k] as int == bilinear_byte(
                    src@,
                    sw as int,
                    sh as int,
                    ow as int,
                    oh as int,
                    k,
                ),
        decreases oh - y,
    {
        assert((y as int) * (sh as int) <= u64::MAX) by (nonlinear_arith)
            requires
                y <= u32::MAX,
                sh <= u32::MAX,
        ;
        let gy: u64 = y as u64 * sh as u64;
        let y0: u64 = gy / oh as u64;
        let ry: u64 = gy % oh as u64;
        proof {
            lemma_scaled_bounds(y as int, sh as int, oh as int);
        }
        let y1: u64 = if y0 + 1 < sh as u64 {
            y0 + 1
        } else {
            sh as u64 - 1
        };
        let mut x: u32 = 0;
        while x < ow
            invariant
                src@.len() == src_len,
                valid_source(src@, sw as int, sh as int),
                ow > 0,
                oh > 0,
                y < oh,
                x <= ow,
                y0 == scaled(y as int, sh as int, oh as int),
                ry == scaled_frac(y as int, sh as int, oh as int),
                y1 == next_clamped(y0 as int, sh as int),
                y0 < sh,
                ry < oh,
                dst@.len() == (y * ow + x) * 4,
                forall|k: int|
                    0 <= k < dst@.len() ==> dst@[k] as int == bilinear_byte(
                        src@,
                        sw as int,
                        sh as int,
                        ow as int,
                        oh as int,
                        k,
                    ),
            decreases ow - x,
        {
            assert((x as int) * (sw as int) <= u64::MAX) by (nonlinear_arith)
                requires
                    x <= u32::MAX,
                    sw <= u32::MAX,
            ;
            let gx: u64 = x as u64 * sw as u64;
            let x0: u64 = gx / ow as u64;
            let rx: u64 = gx % ow as u64;
            proof {
                lemma_scaled_bounds(x as int, sw as int, ow as int);
            }
            let x1: u64 = if x0 + 1 < sw as u64 {
                x0 + 1
            } else {
                sw as u64 - 1
            };
            proof {
                lemma_byte_in_source(x0 as int, y0 as int, sw as int, sh as int, 0);
                lemma_byte_in_source(x1 as int, y0 as int, sw as int, sh as int, 0);
                lemma_byte_in_source(x0 as int, y1 as int, sw as int, sh as int, 0);
                lemma_byte_in_source(x1 as int, y1 as int, sw as int, sh as int, 0);
            }
            let i00: usize = ((y0 as usize) * (sw as usize) + x0 as usize) * 4;
            let i10: usize = ((y0 as usize) * (sw as usize) + x1 as usize) * 4;
            let i01: usize = ((y1 as usize) * (sw as usize) + x0 as usize) * 4;
            let i11: usize = ((y1 as usize) * (sw as usize) + x1 as usize) * 4;
            let mut ch: usize = 0;
            while ch < 4
                invariant
                    src@.len() == src_len,
                    valid_source(src@, sw as int, sh as int),
                    ow > 0,
                    oh > 0,
                    y < oh,
                    x < ow,
                    ch <= 4,
                    y0 == scaled(y as int, sh as int, oh as int),
                    ry == scaled_frac(y as int, sh as int, oh as int),
                    y1 == next_clamped(y0 as int, sh as int),
                    x0 == scaled(x as int, sw as int, ow as int),
                    rx == scaled_frac(x as int, sw as int, ow as int),
                    x1 == next_clamped(x0 as int, sw as int),
                    ry < oh,
                    rx < ow,
                    i00 == byte_at(x0 as int, y0 as int, sw as int, 0),
                    i10 == byte_at(x1 as int, y0 as int, sw as int, 0),
                    i01 == byte_at(x0 as int, y1 as int, sw as int, 0),
                    i11 == byte_at(x1 as int, y1 as int, sw as int, 0),
                    i00 + 4 <= sw * sh * 4,
                    i10 + 4 <= sw * sh * 4,
                    i01 + 4 <= sw * sh * 4,
                    i11 + 4 <= sw * sh * 4,
                    dst@.len() == (y * ow + x) * 4 + ch,
                    forall|k: int|
                        0 <= k < dst@.len() ==> dst@[k] as int == bilinear_byte(
                            src@,
                            sw as int,
                            sh as int,
                            ow as int,
                            oh as int,
                            k,
                        ),
                decreases 4 - ch,
            {
                proof {
                    lemma_position(x as int, y as int, ow as int, ch as int);
                }
                let v = blend_channel(
                    src[i00 + ch],
                    src[i10 + ch],
                    src[i01 + ch],
                    src[i11 + ch],
                    rx,
                    ry,
                    ow as u64,
                    oh as u64,
                );
                dst.push(v);
                ch = ch + 1;
            }
            x = x + 1;
        }
        assert((y + 1) * ow == y * ow + ow) by (nonlinear_arith);
        y = y + 1;
    }
    assert(dst@ =~= bilinear_image(src@, sw as int, sh as int, ow as int, oh as int)) by {
        assert(oh * ow == ow * oh) by (nonlinear_arith);
    }
    dst
}

/// A stored RGBA raster.
pub struct Image {
    pub w: u32,
    pub h: u32,
    pub data: Vec<u8>,
}

impl Image {
    /// Non-empty, with exactly four bytes per pixel.
    pub open spec fn wf(&self) -> bool {
        &&& self.w > 0
        &&& self.h > 0
        &&& self.data@.len() == self.w * self.h * 4
    }
}

/// The resampling of `img` to `ow` x `oh`: bilinear for mode 1, nearest
/// neighbour for any other mode.
pub open spec fn resampled(img: Image, ow: int, oh: int, mode: u32) -> Seq<u8> {
    if mode == 1 {
        bilinear_image(img.data@, img.w as int, img.h as int, ow, oh)
    } else {
        nearest_image(img.data@, img.w as int, img.h as int, ow, oh)
    }
}

/// Rasters keyed by id. Storing under an id that is present replaces the
/// earlier raster whole.
pub struct ImageStore {
    images: HashMap<i32, Image>,
}

impl View for ImageStore {
    type V = Map<i32, Image>;

    closed spec fn view(&self) -> Map<i32, Image> {
        self.images@
    }
}

impl ImageStore {
    /// Every stored raster is well formed.
    pub open spec fn wf(&self) -> bool {
        forall|id: i32| #[trigger] self@.contains_key(id) ==> self@[id].wf()
    }

    pub fn new() -> (r: ImageStore)
        ensures
            r.wf(),
            r@ == Map::<i32, Image>::empty(),
    {
        ImageStore { images: HashMap::new() }
    }

    /// Drops every raster.
    pub fn clear(&mut self)
        ensures
            final(self).wf(),
            final(self)@ == Map::<i32, Image>::empty(),
    {
        self.images.clear();
    }

    /// Stores the first `w * h * 4` bytes of `rgba` under `id`. Fails, leaving
    /// the store unchanged, when a dimension is zero or `rgba` is too short.
    pub fn store_image(&mut self, id: i32, rgba: &[u8], w: u32, h: u32) -> (r: bool)
        requires
            old(self).wf(),
        ensures
            final(self).wf(),
            r == (w > 0 && h > 0 && rgba@.len() >= w * h * 4),
            r ==> final(self)@ == old(self)@.insert(id, final(self)@[id]),
            r ==> final(self)@[id].w == w && final(self)@[id].h == h,
            r ==> final(self)@[id].data@ == rgba@.subrange(0, w * h * 4),
            !r ==> final(self)@ == old(self)@,
    {
        if w == 0 || h == 0 {
            return false;
        }
        assert((w as int) * (h as int) * 4 <= 0x3_ffff_ffff_ffff_ffff) by (nonlinear_arith)
            requires
                w <= u32::MAX,
                h <= u32::MAX,
        ;
        let expected: u128 = w as u128 * h as u128 * 4;
        if (rgba.len() as u128) < expected {
            return false;
        }
        let n: usize = expected as usize;
        let mut data: Vec<u8> = Vec::new();
        let mut i: usize = 0;
        while i < n
            invariant
                n <= rgba@.len(),
                i <= n,
                data@ == rgba@.subrange(0, i as int),
            decreases n - i,
        {
            data.push(rgba[i]);
            i = i + 1;
            assert(data@ =~= rgba@.subrange(0, i as int));
        }
        let img = Image { w, h, data };
        self.images.insert(id, img);
        proof {
            assert forall|k: i32| #[trigger] self@.contains_key(k) implies self@[k].wf() by {
                if k != id {
                    assert(old(self)@.contains_key(k));
                }
            }
            assert(self@ =~= old(self)@.insert(id, self@[id]));
        }
        true
    }

    /// The raster under `id` resampled to `out_w` x `out_h`: bilinear for
    /// mode 1, nearest neighbour otherwise. Empty for an unknown id or a zero
    /// output dimension.
    pub fn resize_image_mode(&self, id: i32, out_w: u32, out_h: u32, mode: u32) -> (r: Vec<u8>)
        requires
            self.wf(),
            output_fits(out_w as int, out_h as int),
        ensures
            self@.contains_key(id) ==> r@ == resampled(self@[id], out_w as int, out_h as int, mode),
            !self@.contains_key(id) ==> r@.len() == 0,
            out_w == 0 || out_h == 0 ==> r@.len() == 0,
    {
        match self.images.get(&id) {
            Some(img) => {
                proof {
                    assert(self@.contains_key(id));
                    lemma_empty_output(0, out_h as int);
                    lemma_empty_output(out_w as int, 0);
                }
                if mode == 1 {
                    resize_bilinear_rgba(img.data.as_slice(), img.w, img.h, out_w, out_h)
                } else {
                    resize_nearest_rgba(img.data.as_slice(), img.w, img.h, out_w, out_h)
                }
            },
            None => Vec::new(),
        }
    }

    /// `resize_image_mode` with nearest-neighbour sampling.
    pub fn resize_image(&self, id: i32, out_w: u32, out_h: u32) -> (r: Vec<u8>)
        requires
            self.wf(),
            output_fits(out_w as int, out_h as int),
        ensures
            self@.contains_key(id) ==> r@ == nearest_image(
                self@[id].data@,
                self@[id].w as int,
                self@[id].h as int,
                out_w as int,
                out_h as int,
            ),
            !self@.contains_key(id) ==> r@.len() == 0,
            out_w == 0 || out_h == 0 ==> r@.len() == 0,
    {
        self.resize_image_mode(id, out_w, out_h, 0)
    }

    /// Whether a raster is stored under `id`.
    pub fn contains(&self, id: i32) -> (r: bool)
        ensures
            r == self@.contains_key(id),
    {
        self.images.contains_key(&id)
    }
}

} // verus!
