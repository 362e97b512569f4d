//! The per-pixel stages: noise layer, multiply blend, contrast stretch and
//! fine-grain noise, with the mathematical model of each.
use vstd::prelude::*;
use crate::buffer::{BufferModel, RgbBuffer};

verus! {

/// Why a synthesis run produced no texture.
#[derive(Debug, Clone, Copy, PartialEq, Eq, Structural)]
pub enum SynthesisError {
    /// A noise field or a layer does not have one entry per pixel, or the
    /// raster would not fit in memory.
    DimensionMismatch,
    /// The blended layer has no spread of intensities to stretch.
    ZeroFluctuation,
}

/// `x` held within `[lo, hi]`.
pub open spec fn clamp_int(x: int, lo: int, hi: int) -> int {
    if x < lo {
        lo
    } else if x > hi {
        hi
    } else {
        x
    }
}

/// A channel value moved by `offset` and held within the byte range.
pub open spec fn offset_channel(value: int, offset: int) -> u8 {
    clamp_int(value + offset, 0, 255) as u8
}

/// The three channels of pixel `p` are equal.
pub open spec fn gray_at(bytes: Seq<u8>, p: int) -> bool {
    bytes[3 * p] == bytes[3 * p + 1] && bytes[3 * p] == bytes[3 * p + 2]
}

/// Every whole pixel of `bytes` is gray.
pub open spec fn is_gray(bytes: Seq<u8>) -> bool {
    forall|p: int| 0 <= p && 3 * p + 2 < bytes.len() ==> #[trigger] gray_at(bytes, p)
}

/// The base noise layer: each pixel is full white moved by its offset.
pub open spec fn noise_bytes(offsets: Seq<i32>) -> Seq<u8> {
    Seq::new(3 * offsets.len(), |i: int| offset_channel(255, offsets[i / 3] as int))
}

/// The multiply blend of two channel values.
pub open spec fn multiply_value(a: u8, b: u8) -> u8 {
    ((a as int * b as int) / 255) as u8
}

/// The multiply blend of two layers, byte by byte.
pub open spec fn multiply_bytes(a: Seq<u8>, b: Seq<u8>) -> Seq<u8> {
    Seq::new(a.len(), |i: int| multiply_value(a[i], b[i]))
}

/// The least byte, scanning from a start of 255.
pub open spec fn min_of(s: Seq<u8>) -> u8
    decreases s.len(),
{
    if s.len() == 0 {
        255
    } else if s.last() < min_of(s.drop_last()) {
        s.last()
    } else {
        min_of(s.drop_last())
    }
}

/// The greatest byte, scanning from a start of 0.
pub open spec fn max_of(s: Seq<u8>) -> u8
    decreases s.len(),
{
    if s.len() == 0 {
        0
    } else if s.last() > max_of(s.drop_last()) {
        s.last()
    } else {
        max_of(s.drop_last())
    }
}

/// `d` mapped linearly from `[lo, hi]` onto `[0, 255]`, rounded down.
pub open spec fn stretch_value(d: u8, lo: u8, hi: u8) -> u8 {
    ((255 * (d - lo)) / (hi - lo)) as u8
}

/// The contrast stretch of a layer, over the range it spans before the stretch.
pub open spec fn stretch_bytes(s: Seq<u8>) -> Seq<u8> {
    Seq::new(s.len(), |i: int| stretch_value(s[i], min_of(s), max_of(s)))
}

/// Fine-grain noise: each channel of pixel `p` moved by `offsets[p]`.
pub open spec fn fine_bytes(s: Seq<u8>, offsets: Seq<i32>) -> Seq<u8> {
    Seq::new(s.len(), |i: int| offset_channel(s[i] as int, offsets[i / 3] as int))
}

/// Relies on num::clamp, which returns `min` below it, `max` above it and
/// `input` otherwise.
#[verifier::external_body]
fn clamp_i64(input: i64, min: i64, max: i64) -> (r: i64)
    requires
        min <= max,
    ensures
        r as int == clamp_int(input as int, min as int, max as int),
{
    num::clamp(input, min, max)
}

/// Fills a `width` by `height` layer from one noise offset per pixel, taken
/// row by row; each pixel is gray.
pub fn noise_layer(width: u32, height: u32, offsets: &Vec<i32>) -> (r: RgbBuffer)
    requires
        offsets@.len() == width as nat * height as nat,
    ensures
        r.wf(),
        r@ == (BufferModel {
            width: width as nat,
            height: height as nat,
            bytes: noise_bytes(offsets@),
        }),
{
    let n = offsets.len();
    let mut data: Vec<u8> = Vec::new();
    let mut p: usize = 0;
    while p < n
        invariant
            n == offsets@.len(),
            p <= n,
            data@.len() == 3 * p,
            forall|i: int| 0 <= i < 3 * p ==> #[trigger] data@[i] == noise_bytes(offsets@)[i],
        decreases n - p,
    {
        let a = clamp_i64(255 + offsets[p] as i64, 0, 255) as u8;
        data.push(a);
        data.push(a);
        data.push(a);
        proof {
            assert forall|i: int| 0 <= i < 3 * (p + 1) implies #[trigger] data@[i] == noise_bytes(
                offsets@,
            )[i] by {
                if i >= 3 * p {
                    assert(i / 3 == p);
                }
            }
        }
        p = p + 1;
    }
    assert(data@ =~= noise_bytes(offsets@));
    RgbBuffer::from_parts(width, height, data)
}

/// The multiply blend of two channel values: `a * b / 255`, rounded down.
pub fn multiply_channel(a: u8, b: u8) -> (r: u8)
    ensures
        r == multiply_value(a, b),
{
    proof {
        assert(a as int * b as int <= 255 * 255) by (nonlinear_arith)
            requires
                a <= 255,
                b <= 255,
        ;
    }
    ((a as u32 * b as u32) / 255) as u8
}

/// The multiply blend of two pixels, channel by channel.
pub fn multiply_pixel(a: [u8; 3], b: [u8; 3]) -> (r: [u8; 3])
    ensures
        forall|c: int| 0 <= c < 3 ==> #[trigger] r[c] == multiply_value(a[c], b[c]),
{
    let r = [multiply_channel(a[0], b[0]), multiply_channel(a[1], b[1]), multiply_channel(a[2], b[2])];
    assert(r[0] == multiply_value(a[0], b[0]));
    assert(r[1] == multiply_value(a[1], b[1]));
    assert(r[2] == multiply_value(a[2], b[2]));
    r
}

/// Blends `top` onto `base` in multiply mode; each result pixel depends only
/// on the same pixel of the two layers.
pub fn multiply_layers(base: &RgbBuffer, top: &RgbBuffer) -> (r: RgbBuffer)
    requires
        base.wf(),
        top.wf(),
        base@.width == top@.width,
        base@.height == top@.height,
    ensures
        r.wf(),
        r@ == (BufferModel {
            width: base@.width,
            height: base@.height,
            bytes: multiply_bytes(base@.bytes, top@.bytes),
        }),
{
    let (width, height) = base.dimensions();
    let a = base.as_raw();
    let b = top.as_raw();
    let len = a.len();
    let n = len / 3;
    let mut data: Vec<u8> = Vec::new();
    let mut p: usize = 0;
    while p < n
        invariant
            a@ == base@.bytes,
            b@ == top@.bytes,
            a@.len() == b@.len(),
            a@.len() == 3 * n,
            len == a@.len(),
            p <= n,
            data@.len() == 3 * p,
            forall|i: int| 0 <= i < 3 * p ==> #[trigger] data@[i] == multiply_value(a@[i], b@[i]),
        decreases n - p,
    {
        let i = 3 * p;
        let m = multiply_pixel([a[i], a[i + 1], a[i + 2]], [b[i], b[i + 1], b[i + 2]]);
        data.push(m[0]);
        data.push(m[1]);
        data.push(m[2]);
        p = p + 1;
    }
    assert(data@ =~= multiply_bytes(a@, b@));
    RgbBuffer::from_parts(width, height, data)
}

/// The least and the greatest byte of `v`, as one scan from `(255, 0)` finds
/// them.
pub fn get_min_max(v: &Vec<u8>) -> (r: (u8, u8))
    ensures
        r == (min_of(v@), max_of(v@)),
{
    let mut lo: u8 = 255;
    let mut hi: u8 = 0;
    let mut i: usize = 0;
    while i < v.len()
        invariant
            i <= v@.len(),
            lo == min_of(v@.subrange(0, i as int)),
            hi == max_of(v@.subrange(0, i as int)),
        decreases v@.len() - i,
    {
        assert(v@.subrange(0, i + 1).drop_last() =~= v@.subrange(0, i as int));
        if v[i] < lo {
            lo = v[i];
        }
        if v[i] > hi {
            hi = v[i];
        }
        i = i + 1;
    }
    assert(v@.subrange(0, v@.len() as int) =~= v@);
    (lo, hi)
}

/// Every byte lies between the scan's least and greatest, and a nonempty
/// sequence holds both.
pub proof fn lemma_min_max_bounds(s: Seq<u8>)
    ensures
        forall|i: int| 0 <= i < s.len() ==> min_of(s) <= #[trigger] s[i] <= max_of(s),
        s.len() > 0 ==> exists|i: int| 0 <= i < s.len() && #[trigger] s[i] == min_of(s),
        s.len() > 0 ==> exists|i: int| 0 <= i < s.len() && #[trigger] s[i] == max_of(s),
    decreases s.len(),
{
    if s.len() > 0 {
        let t = s.drop_last();
        let k = s.len() - 1;
        lemma_min_max_bounds(t);
        assert forall|i: int| 0 <= i < s.len() implies min_of(s) <= #[trigger] s[i] <= max_of(s) by {
            if i < k {
                assert(s[i] == t[i]);
            }
        }
        if s[k] < min_of(t) || t.len() == 0 {
            assert(s[k] == min_of(s));
        } else {
            let j = choose|j: int| 0 <= j < t.len() && #[trigger] t[j] == min_of(t);
            assert(s[j] == min_of(s));
        }
        if s[k] > max_of(t) || t.len() == 0 {
            assert(s[k] == max_of(s));
        } else {
            let j = choose|j: int| 0 <= j < t.len() && #[trigger] t[j] == max_of(t);
            assert(s[j] == max_of(s));
        }
    }
}

/// Stretches the contrast of a layer so that its intensities span the whole
/// byte range; fails when the layer spans no range at all.
pub fn stretch_contrast(layer: &RgbBuffer) -> (r: Result<RgbBuffer, SynthesisError>)
    requires
        layer.wf(),
    ensures
        r.is_err() <==> min_of(layer@.bytes) >= max_of(layer@.bytes),
        r matches Err(e) ==> e == SynthesisError::ZeroFluctuation,
        r matches Ok(b) ==> b.wf() && b@ == (BufferModel {
            width: layer@.width,
            height: layer@.height,
            bytes: stretch_bytes(layer@.bytes),
        }),
{
    let (width, height) = layer.dimensions();
    let v = layer.as_raw();
    let (lo, hi) = get_min_max(v);
    if lo >= hi {
        return Err(SynthesisError::ZeroFluctuation);
    }
    proof {
        lemma_min_max_bounds(v@);
    }
    let range = (hi - lo) as u32;
    let mut data: Vec<u8> = Vec::new();
    let mut i: usize = 0;
    while i < v.len()
        invariant
            v@ == layer@.bytes,
            lo == min_of(v@),
            hi == max_of(v@),
            lo < hi,
            range == hi - lo,
            forall|j: int| 0 <= j < v@.len() ==> lo <= #[trigger] v@[j] <= hi,
            i <= v@.len(),
            data@.len() == i,
            forall|j: int| 0 <= j < i ==> #[trigger] data@[j] == stretch_value(v@[j], lo, hi),
        decreases v@.len() - i,
    {
        let d = (v[i] - lo) as u32;
        proof {
            assert((255 * d as int) / (range as int) <= 255) by (nonlinear_arith)
                requires
                    d <= range,
                    range > 0,
            ;
        }
        data.push(((255 * d) / range) as u8);
        i = i + 1;
    }
    assert(data@ =~= stretch_bytes(v@));
    Ok(RgbBuffer::from_parts(width, height, data))
}

/// Adds one fine-grain noise offset per pixel to each of its channels, held
/// within the byte range.
pub fn add_fine_noise(layer: &RgbBuffer, offsets: &Vec<i32>) -> (r: RgbBuffer)
    requires
        layer.wf(),
        offsets@.len() == (layer@.width * layer@.height) as nat,
    ensures
        r.wf(),
        r@ == (BufferModel {
            width: layer@.width,
            height: layer@.height,
            bytes: fine_bytes(layer@.bytes, offsets@),
        }),
{
    let (width, height) = layer.dimensions();
    let v = layer.as_raw();
    let n = offsets.len();
    let len = v.len();
    let mut data: Vec<u8> = Vec::new();
    let mut p: usize = 0;
    while p < n
        invariant
            v@ == layer@.bytes,
            len == v@.len(),
            n == offsets@.len(),
            v@.len() == 3 * n,
            p <= n,
            data@.len() == 3 * p,
            forall|i: int| 0 <= i < 3 * p ==> #[trigger] data@[i] == fine_bytes(v@, offsets@)[i],
        decreases n - p,
    {
        let off = offsets[p] as i64;
        let i = 3 * p;
        data.push(clamp_i64(v[i] as i64 + off, 0, 255) as u8);
        data.push(clamp_i64(v[i + 1] as i64 + off, 0, 255) as u8);
        data.push(clamp_i64(v[i + 2] as i64 + off, 0, 255) as u8);
        proof {
            assert forall|j: int| 0 <= j < 3 * (p + 1) implies #[trigger] data@[j] == fine_bytes(
                v@,
                offsets@,
            )[j] by {
                if j >= 3 * p {
                    assert(j / 3 == p);
                }
            }
        }
        p = p + 1;
    }
    assert(data@ =~= fine_bytes(v@, offsets@));
    RgbBuffer::from_parts(width, height, data)
}

/// The base noise layer is gray.
pub proof fn lemma_noise_gray(offsets: Seq<i32>)
    ensures
        is_gray(noise_bytes(offsets)),
{
    let s = noise_bytes(offsets);
    assert forall|p: int| 0 <= p && 3 * p + 2 < s.len() implies #[trigger] gray_at(s, p) by {
        assert((3 * p) / 3 == p && (3 * p + 1) / 3 == p && (3 * p + 2) / 3 == p);
    }
}

/// The multiply blend of two gray layers is gray.
pub proof fn lemma_multiply_gray(a: Seq<u8>, b: Seq<u8>)
    requires
        a.len() == b.len(),
        is_gray(a),
        is_gray(b),
    ensures
        is_gray(multiply_bytes(a, b)),
{
    let s = multiply_bytes(a, b);
    assert forall|p: int| 0 <= p && 3 * p + 2 < s.len() implies #[trigger] gray_at(s, p) by {
        assert(gray_at(a, p) && gray_at(b, p));
    }
}

/// The contrast stretch of a gray layer is gray.
pub proof fn lemma_stretch_gray(a: Seq<u8>)
    requires
        is_gray(a),
    ensures
        is_gray(stretch_bytes(a)),
{
    let s = stretch_bytes(a);
    assert forall|p: int| 0 <= p && 3 * p + 2 < s.len() implies #[trigger] gray_at(s, p) by {
        assert(gray_at(a, p));
    }
}

/// Fine-grain noise, shared by the channels of a pixel, keeps a gray layer
/// gray.
pub proof fn lemma_fine_gray(a: Seq<u8>, offsets: Seq<i32>)
    requires
        is_gray(a),
    ensures
        is_gray(fine_bytes(a, offsets)),
{
    let s = fine_bytes(a, offsets);
    assert forall|p: int| 0 <= p && 3 * p + 2 < s.len() implies #[trigger] gray_at(s, p) by {
        assert(gray_at(a, p));
        assert((3 * p) / 3 == p && (3 * p + 1) / 3 == p && (3 * p + 2) / 3 == p);
    }
}

/// Blending any layer with a full-white layer gives the layer back.
pub proof fn lemma_multiply_by_white(a: Seq<u8>, white: Seq<u8>)
    requires
        a.len() == white.len(),
        forall|i: int| 0 <= i < white.len() ==> #[trigger] white[i] == 255,
    ensures
        multiply_bytes(a, white) == a,
{
    assert forall|i: int| 0 <= i < a.len() implies #[trigger] multiply_bytes(a, white)[i] == a[i] by {
        assert(white[i] == 255);
        assert((a[i] as int * 255) / 255 == a[i] as int) by (nonlinear_arith);
    }
    assert(multiply_bytes(a, white) =~= a);
}

/// Blending any layer with a black layer gives a black layer.
pub proof fn lemma_multiply_by_black(a: Seq<u8>, black: Seq<u8>)
    requires
        a.len() == black.len(),
        forall|i: int| 0 <= i < black.len() ==> #[trigger] black[i] == 0,
    ensures
        multiply_bytes(a, black) == Seq::new(a.len(), |i: int| 0u8),
{
    assert forall|i: int| 0 <= i < a.len() implies #[trigger] multiply_bytes(a, black)[i] == 0 by {
        assert(black[i] == 0);
    }
    assert(multiply_bytes(a, black) =~= Seq::new(a.len(), |i: int| 0u8));
}

/// After a contrast stretch of a layer that spans some range, the least
/// byte is 0 and the greatest is 255.
pub proof fn lemma_stretch_spans_full_range(s: Seq<u8>)
    requires
        min_of(s) < max_of(s),
    ensures
        min_of(stretch_bytes(s)) == 0,
        max_of(stretch_bytes(s)) == 255,
{
    let lo = min_of(s);
    let hi = max_of(s);
    let t = stretch_bytes(s);
    lemma_min_max_bounds(s);
    lemma_min_max_bounds(t);
    let i = choose|i: int| 0 <= i < s.len() && #[trigger] s[i] == lo;
    let j = choose|j: int| 0 <= j < s.len() && #[trigger] s[j] == hi;
    assert(t[i] == 0);
    let range = (hi - lo) as int;
    assert((255 * range) / range == 255) by (nonlinear_arith)
        requires
            range > 0,
    ;
    assert(t[j] == 255);
    assert(min_of(t) <= t[i]);
    assert(max_of(t) >= t[j]);
}

/// A layer whose bytes are all equal spans no range, so its contrast
/// stretch fails.
pub proof fn lemma_uniform_layer_has_no_fluctuation(s: Seq<u8>)
    requires
        forall|i: int, j: int| 0 <= i < s.len() && 0 <= j < s.len() ==> #[trigger] s[i] == #[trigger] s[j],
    ensures
        min_of(s) >= max_of(s),
{
    lemma_min_max_bounds(s);
    if s.len() > 0 {
        let i = choose|i: int| 0 <= i < s.len() && #[trigger] s[i] == min_of(s);
        let j = choose|j: int| 0 <= j < s.len() && #[trigger] s[j] == max_of(s);
        assert(s[i] == s[j]);
    }
}

} // verus!
