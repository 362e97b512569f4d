//! The whole cloth texture recipe, from two noise fields to the texture.
use vstd::prelude::*;
use crate::blur::{blur_bytes, gaussian_blur_asymmetric};
use crate::buffer::{byte_len, BufferModel, RgbBuffer};
use crate::compose::{
    add_fine_noise, fine_bytes, is_gray, lemma_fine_gray, lemma_multiply_gray, lemma_noise_gray,
    lemma_stretch_gray, max_of, min_of, multiply_bytes, multiply_layers, noise_layer, noise_bytes,
    stretch_bytes, stretch_contrast, SynthesisError,
};

verus! {

/// The blur radius, in pixels, along the axis that a layer is streaked on.
pub const BLUR_STRENGTH: u16 = 9;

/// The blur radius, in pixels, across the streaks.
pub const BLUR_CROSS: u16 = 1;

/// The two noise fields hold one offset per pixel, and the raster fits in
/// memory.
pub open spec fn noise_fits(width: nat, height: nat, base: Seq<i32>, fine: Seq<i32>) -> bool {
    &&& base.len() == width * height
    &&& fine.len() == width * height
    &&& byte_len(width, height) <= usize::MAX
}

/// The noise layer streaked horizontally, blended with the same layer
/// streaked vertically.
pub open spec fn composited(width: nat, height: nat, base: Seq<i32>) -> Seq<u8> {
    let layer = noise_bytes(base);
    multiply_bytes(
        blur_bytes(layer, width, height, BLUR_STRENGTH as nat, BLUR_CROSS as nat),
        blur_bytes(layer, width, height, BLUR_CROSS as nat, BLUR_STRENGTH as nat),
    )
}

/// The texture: the blended layer stretched to the full range, with
/// fine-grain noise added.
pub open spec fn texture(width: nat, height: nat, base: Seq<i32>, fine: Seq<i32>) -> Seq<u8> {
    fine_bytes(stretch_bytes(composited(width, height, base)), fine)
}

/// Synthesizes a `width` by `height` grayscale cloth texture from two noise
/// fields of one whole-number offset per pixel, taken row by row: `base_noise`
/// for the noise layer (each pixel is `255 + offset`, held to the byte
/// range), `fine_noise` for the grain added at the end.
pub fn cloth_bumpmap(width: u32, height: u32, base_noise: &Vec<i32>, fine_noise: &Vec<i32>) -> (r:
    Result<RgbBuffer, SynthesisError>)
    requires
        width > 0,
        height > 0,
        BLUR_STRENGTH <= width || height <= BLUR_STRENGTH,
    ensures
        r == Err::<RgbBuffer, SynthesisError>(SynthesisError::DimensionMismatch) <==> !noise_fits(
            width as nat,
            height as nat,
            base_noise@,
            fine_noise@,
        ),
        r == Err::<RgbBuffer, SynthesisError>(SynthesisError::ZeroFluctuation) <==> noise_fits(
            width as nat,
            height as nat,
            base_noise@,
            fine_noise@,
        ) && min_of(composited(width as nat, height as nat, base_noise@)) >= max_of(
            composited(width as nat, height as nat, base_noise@),
        ),
        r matches Ok(b) ==> b.wf() && b@ == (BufferModel {
            width: width as nat,
            height: height as nat,
            bytes: texture(width as nat, height as nat, base_noise@, fine_noise@),
        }),
        r matches Ok(b) ==> is_gray(b@.bytes),
{
    let base_len = base_noise.len();
    let fine_len = fine_noise.len();
    let pixels = (width as usize).checked_mul(height as usize);
    let n = match pixels {
        Some(n) => n,
        None => {
            proof {
                assert(width as nat * height as nat > usize::MAX);
                assert(base_noise@.len() == base_len);
            }
            return Err(SynthesisError::DimensionMismatch);
        },
    };
    if n.checked_mul(3).is_none() || base_len != n || fine_len != n {
        return Err(SynthesisError::DimensionMismatch);
    }
    let layer_one = noise_layer(width, height, base_noise);
    proof {
        lemma_noise_gray(base_noise@);
    }
    let layer_two = layer_one.duplicate();
    let horizontal = match gaussian_blur_asymmetric(layer_one, BLUR_STRENGTH, BLUR_CROSS) {
        Some(b) => b,
        None => return Err(SynthesisError::DimensionMismatch),
    };
    let vertical = match gaussian_blur_asymmetric(layer_two, BLUR_CROSS, BLUR_STRENGTH) {
        Some(b) => b,
        None => return Err(SynthesisError::DimensionMismatch),
    };
    let merged = multiply_layers(&horizontal, &vertical);
    proof {
        lemma_multiply_gray(horizontal@.bytes, vertical@.bytes);
    }
    let stretched = match stretch_contrast(&merged) {
        Ok(b) => b,
        Err(e) => return Err(e),
    };
    proof {
        lemma_stretch_gray(merged@.bytes);
        lemma_fine_gray(stretched@.bytes, fine_noise@);
    }
    Ok(add_fine_noise(&stretched, fine_noise))
}

} // verus!
