//! The asymmetric directional blur, run by fastblur on unpacked pixels.
use vstd::prelude::*;
use crate::buffer::{BufferModel, RgbBuffer};
use crate::compose::is_gray;

verus! {

/// The largest blur radius, in pixels, that the blur stage accepts.
pub const MAX_BLUR_RADIUS: u16 = 1000;

/// Raw bytes grouped into pixels of three channels.
pub open spec fn pixels_of(s: Seq<u8>) -> Seq<Seq<u8>> {
    Seq::new(s.len() / 3, |p: int| seq![s[3 * p], s[3 * p + 1], s[3 * p + 2]])
}

/// Pixels laid out as raw bytes, three per pixel.
pub open spec fn flat_of(q: Seq<Seq<u8>>) -> Seq<u8> {
    Seq::new(3 * q.len(), |i: int| q[i / 3][i % 3])
}

/// Every pixel has three equal channels.
pub open spec fn pixels_gray(q: Seq<Seq<u8>>) -> bool {
    forall|p: int| 0 <= p < q.len() ==> #[trigger] q[p][0] == q[p][1] && q[p][0] == q[p][2]
}

/// What fastblur's asymmetric Gaussian blur makes of `pixels`, a `width` by
/// `height` raster, for whole-number radii.
pub uninterp spec fn box_blurred(
    pixels: Seq<Seq<u8>>,
    width: nat,
    height: nat,
    radius_h: nat,
    radius_v: nat,
) -> Seq<Seq<u8>>;

/// The blur of a raster given as raw bytes.
pub open spec fn blur_bytes(s: Seq<u8>, width: nat, height: nat, radius_h: nat, radius_v: nat) -> Seq<
    u8,
> {
    flat_of(box_blurred(pixels_of(s), width, height, radius_h, radius_v))
}

/// Relies on fastblur::gaussian_blur_asymmetric, which blurs `data` in place
/// with three box passes per axis. For a whole-number sigma `s` (exact as an
/// `f32`), create_box_gauss yields three boxes of width `2s + 1`, so each
/// pass has radius `s`; a sigma of 0 yields radius 0, and each pass then only
/// copies. The three channels go through the same arithmetic, so gray pixels
/// stay gray. The horizontal pass computes `radius - height` when the radius
/// exceeds the width, which underflows when the height exceeds the radius;
/// the vertical pass computes `height - 1`; both are excluded.
#[verifier::external_body]
fn blur_pixels(data: &mut Vec<[u8; 3]>, width: usize, height: usize, radius_h: u16, radius_v: u16)
    requires
        old(data)@.len() == width * height,
        width > 0,
        height > 0,
        radius_h <= MAX_BLUR_RADIUS,
        radius_v <= MAX_BLUR_RADIUS,
        radius_h <= width || height <= radius_h,
    ensures
        final(data).deep_view() == box_blurred(
            old(data).deep_view(),
            width as nat,
            height as nat,
            radius_h as nat,
            radius_v as nat,
        ),
        final(data)@.len() == old(data)@.len(),
        radius_h == 0 && radius_v == 0 ==> final(data).deep_view() == old(data).deep_view(),
        pixels_gray(old(data).deep_view()) ==> pixels_gray(final(data).deep_view()),
{
    fastblur::gaussian_blur_asymmetric(data, width, height, radius_h.into(), radius_v.into())
}

/// Groups raw bytes into pixels of three channels.
pub fn unflatten(data: &Vec<u8>) -> (r: Vec<[u8; 3]>)
    requires
        data@.len() % 3 == 0,
    ensures
        r.deep_view() == pixels_of(data@),
        r@.len() == data@.len() / 3,
{
    let len = data.len();
    let n = len / 3;
    let mut out: Vec<[u8; 3]> = Vec::new();
    let mut p: usize = 0;
    while p < n
        invariant
            len == data@.len(),
            len == 3 * n,
            p <= n,
            out@.len() == p,
            forall|q: int| 0 <= q < p ==> #[trigger] out@[q].deep_view() == pixels_of(data@)[q],
        decreases n - p,
    {
        let i = 3 * p;
        let px = [data[i], data[i + 1], data[i + 2]];
        out.push(px);
        proof {
            assert(px.deep_view() =~= pixels_of(data@)[p as int]);
            assert forall|q: int| 0 <= q < p + 1 implies #[trigger] out@[q].deep_view() == pixels_of(
                data@,
            )[q] by {
                if q == p {
                    assert(out@[q] == px);
                }
            }
        }
        p = p + 1;
    }
    assert(out.deep_view() =~= pixels_of(data@));
    out
}

/// Lays pixels out as raw bytes, three per pixel.
pub fn flatten(data: &Vec<[u8; 3]>) -> (r: Vec<u8>)
    ensures
        r@ == flat_of(data.deep_view()),
{
    let n = data.len();
    let mut out: Vec<u8> = Vec::new();
    let mut p: usize = 0;
    while p < n
        invariant
            n == data@.len(),
            p <= n,
            out@.len() == 3 * p,
            forall|i: int| 0 <= i < 3 * p ==> #[trigger] out@[i] == flat_of(data.deep_view())[i],
        decreases n - p,
    {
        let px = data[p];
        out.push(px[0]);
        out.push(px[1]);
        out.push(px[2]);
        proof {
            assert forall|i: int| 0 <= i < 3 * (p + 1) implies #[trigger] out@[i] == flat_of(
                data.deep_view(),
            )[i] by {
                if i >= 3 * p {
                    assert(i / 3 == p);
                }
            }
        }
        p = p + 1;
    }
    assert(out@ =~= flat_of(data.deep_view()));
    out
}

/// Raw bytes survive grouping into pixels and laying out again.
proof fn lemma_flat_of_pixels(s: Seq<u8>)
    requires
        s.len() % 3 == 0,
    ensures
        flat_of(pixels_of(s)) == s,
{
    let q = pixels_of(s);
    assert forall|i: int| 0 <= i < s.len() implies #[trigger] flat_of(q)[i] == s[i] by {
        let p = i / 3;
        let c = i % 3;
        assert(i == 3 * p + c && 0 <= c < 3 && 0 <= p < q.len());
        let px = q[p];
        assert(px == seq![s[3 * p], s[3 * p + 1], s[3 * p + 2]]);
        if c == 0 {
            assert(px[c] == s[3 * p]);
        } else if c == 1 {
            assert(px[c] == s[3 * p + 1]);
        } else {
            assert(px[c] == s[3 * p + 2]);
        }
    }
    assert(flat_of(q) =~= s);
}

/// Gray raw bytes group into gray pixels.
proof fn lemma_pixels_of_gray(s: Seq<u8>)
    requires
        is_gray(s),
    ensures
        pixels_gray(pixels_of(s)),
{
    let q = pixels_of(s);
    assert forall|p: int| 0 <= p < q.len() implies #[trigger] q[p][0] == q[p][1] && q[p][0]
        == q[p][2] by {
        assert(crate::compose::gray_at(s, p));
    }
}

/// Blurs a raster with independent horizontal and vertical radii, through
/// fastblur on its unpacked pixels.
pub fn gaussian_blur_asymmetric(image: RgbBuffer, radius_h: u16, radius_v: u16) -> (r: Option<
    RgbBuffer,
>)
    requires
        image.wf(),
        image@.width > 0,
        image@.height > 0,
        radius_h <= MAX_BLUR_RADIUS,
        radius_v <= MAX_BLUR_RADIUS,
        radius_h <= image@.width || image@.height <= radius_h,
    ensures
        r matches Some(b) && b.wf() && b@ == (BufferModel {
            width: image@.width,
            height: image@.height,
            bytes: blur_bytes(
                image@.bytes,
                image@.width,
                image@.height,
                radius_h as nat,
                radius_v as nat,
            ),
        }),
        radius_h == 0 && radius_v == 0 ==> (r matches Some(b) && b@ == image@),
        is_gray(image@.bytes) ==> (r matches Some(b) && is_gray(b@.bytes)),
{
    let (width, height) = image.dimensions();
    let raw = image.into_raw();
    proof {
        lemma_flat_of_pixels(raw@);
        if is_gray(raw@) {
            lemma_pixels_of_gray(raw@);
        }
    }
    let mut data = unflatten(&raw);
    blur_pixels(&mut data, width as usize, height as usize, radius_h, radius_v);
    let flat = flatten(&data);
    proof {
        if is_gray(raw@) {
            let q = data.deep_view();
            assert forall|p: int| 0 <= p && 3 * p + 2 < flat@.len() implies #[trigger]
                crate::compose::gray_at(flat@, p) by {
                assert((3 * p) / 3 == p && (3 * p + 1) / 3 == p && (3 * p + 2) / 3 == p);
                assert(q[p][0] == q[p][1] && q[p][0] == q[p][2]);
            }
        }
    }
    RgbBuffer::from_raw(width, height, flat)
}

} // verus!
