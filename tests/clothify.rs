use clothify::blur::{flatten, gaussian_blur_asymmetric, unflatten};
use clothify::buffer::RgbBuffer;
use clothify::compose::{
    add_fine_noise, get_min_max, multiply_channel, multiply_layers, multiply_pixel, noise_layer,
    stretch_contrast, SynthesisError,
};
use clothify::synth::cloth_bumpmap;
use rand::rngs::StdRng;
use rand::SeedableRng;
use rand_distr::{Distribution, Normal};

fn gray_buffer(width: u32, height: u32, values: &[u8]) -> RgbBuffer {
    let mut data = Vec::new();
    for &v in values {
        data.push(v);
        data.push(v);
        data.push(v);
    }
    RgbBuffer::from_raw(width, height, data).unwrap()
}

fn is_gray(bytes: &[u8]) -> bool {
    bytes.chunks(3).all(|p| p[0] == p[1] && p[1] == p[2])
}

fn seeded_offsets(rng: &mut StdRng, sigma: f64, count: usize) -> Vec<i32> {
    let distr = Normal::new(0.0, sigma).unwrap();
    (0..count).map(|_| (255.0 * distr.sample(rng)).floor() as i32).collect()
}

fn seeded_texture(seed: u64, width: u32, height: u32) -> Result<RgbBuffer, SynthesisError> {
    let mut rng = StdRng::seed_from_u64(seed);
    let count = (width * height) as usize;
    let base = seeded_offsets(&mut rng, 0.35, count);
    let fine = seeded_offsets(&mut rng, 0.1, count);
    cloth_bumpmap(width, height, &base, &fine)
}

#[test]
fn it_works() {
    assert_eq!(2 + 2, 4);
}

#[test]
fn from_raw_needs_three_bytes_per_pixel() {
    assert!(RgbBuffer::from_raw(2, 2, vec![0; 12]).is_some());
    assert!(RgbBuffer::from_raw(2, 2, vec![0; 11]).is_none());
    assert!(RgbBuffer::from_raw(0, 5, vec![]).is_some());
    let b = RgbBuffer::from_raw(3, 1, vec![1, 2, 3, 4, 5, 6, 7, 8, 9]).unwrap();
    assert_eq!(b.dimensions(), (3, 1));
    assert_eq!(b.duplicate().into_raw(), vec![1, 2, 3, 4, 5, 6, 7, 8, 9]);
}

#[test]
fn multiply_channel_values() {
    assert_eq!(multiply_channel(255, 255), 255);
    assert_eq!(multiply_channel(128, 128), 64);
    assert_eq!(multiply_channel(200, 100), 78);
    assert_eq!(multiply_channel(0, 200), 0);
    assert_eq!(multiply_channel(77, 255), 77);
}

#[test]
fn multiply_pixel_per_channel() {
    assert_eq!(multiply_pixel([255, 128, 10], [255, 128, 0]), [255, 64, 0]);
}

#[test]
fn multiply_with_white_is_identity() {
    let a = RgbBuffer::from_raw(2, 1, vec![0, 17, 99, 128, 200, 255]).unwrap();
    let white = RgbBuffer::from_raw(2, 1, vec![255; 6]).unwrap();
    let r = multiply_layers(&a, &white);
    assert_eq!(r.as_raw(), a.as_raw());
}

#[test]
fn multiply_with_black_is_black() {
    let a = RgbBuffer::from_raw(2, 1, vec![0, 17, 99, 128, 200, 255]).unwrap();
    let black = RgbBuffer::from_raw(2, 1, vec![0; 6]).unwrap();
    let r = multiply_layers(&a, &black);
    assert_eq!(r.as_raw(), &vec![0u8; 6]);
}

#[test]
fn min_max_scan() {
    assert_eq!(get_min_max(&vec![3, 7, 5]), (3, 7));
    assert_eq!(get_min_max(&vec![42]), (42, 42));
    assert_eq!(get_min_max(&vec![]), (255, 0));
}

#[test]
fn stretch_fills_the_range() {
    let a = gray_buffer(3, 1, &[10, 20, 30]);
    let r = stretch_contrast(&a).unwrap();
    assert_eq!(r.as_raw(), &vec![0, 0, 0, 127, 127, 127, 255, 255, 255]);
    assert_eq!(get_min_max(r.as_raw()), (0, 255));
    assert_eq!(r.dimensions(), (3, 1));
}

#[test]
fn stretch_of_uniform_layer_fails() {
    let a = gray_buffer(2, 2, &[90, 90, 90, 90]);
    assert_eq!(stretch_contrast(&a).err(), Some(SynthesisError::ZeroFluctuation));
    let empty = RgbBuffer::from_raw(0, 0, vec![]).unwrap();
    assert_eq!(stretch_contrast(&empty).err(), Some(SynthesisError::ZeroFluctuation));
}

#[test]
fn noise_layer_clamps_offsets() {
    let r = noise_layer(2, 2, &vec![0, -255, -100, 300]);
    assert_eq!(r.dimensions(), (2, 2));
    assert_eq!(r.as_raw(), &vec![255, 255, 255, 0, 0, 0, 155, 155, 155, 255, 255, 255]);
}

#[test]
fn fine_noise_shared_per_pixel() {
    let a = gray_buffer(3, 1, &[10, 200, 128]);
    let r = add_fine_noise(&a, &vec![-20, 100, 5]);
    assert_eq!(r.as_raw(), &vec![0, 0, 0, 255, 255, 255, 133, 133, 133]);
}

#[test]
fn flatten_round_trip() {
    let bytes = vec![1, 2, 3, 4, 5, 6];
    let pixels = unflatten(&bytes);
    assert_eq!(pixels, vec![[1, 2, 3], [4, 5, 6]]);
    assert_eq!(flatten(&pixels), bytes);
}

#[test]
fn blur_with_zero_radii_is_identity() {
    let bytes: Vec<u8> = (0..48u8).map(|i| i.wrapping_mul(37)).collect();
    let a = RgbBuffer::from_raw(4, 4, bytes.clone()).unwrap();
    let r = gaussian_blur_asymmetric(a, 0, 0).unwrap();
    assert_eq!(r.into_raw(), bytes);
}

#[test]
fn blur_spreads_a_bright_pixel() {
    let mut values = vec![0u8; 25];
    values[12] = 255;
    let a = gray_buffer(5, 5, &values);
    let before = a.as_raw().clone();
    let r = gaussian_blur_asymmetric(a, 1, 1).unwrap();
    assert_eq!(r.dimensions(), (5, 5));
    assert_ne!(r.as_raw(), &before);
    assert!(r.as_raw()[3 * 12] < 255);
    assert!(is_gray(r.as_raw()));
}

#[test]
fn synthesize_rejects_wrong_noise_length() {
    let r = cloth_bumpmap(4, 4, &vec![0; 15], &vec![0; 16]);
    assert_eq!(r.err(), Some(SynthesisError::DimensionMismatch));
    let r = cloth_bumpmap(4, 4, &vec![0; 16], &vec![0; 17]);
    assert_eq!(r.err(), Some(SynthesisError::DimensionMismatch));
}

#[test]
fn synthesize_flat_noise_has_no_fluctuation() {
    let r = cloth_bumpmap(16, 16, &vec![0; 256], &vec![0; 256]);
    assert_eq!(r.err(), Some(SynthesisError::ZeroFluctuation));
}

#[test]
fn synthesize_64_is_gray_and_deterministic() {
    let a = seeded_texture(7, 64, 64).unwrap();
    assert_eq!(a.dimensions(), (64, 64));
    assert_eq!(a.as_raw().len(), 64 * 64 * 3);
    assert!(is_gray(a.as_raw()));
    let b = seeded_texture(7, 64, 64).unwrap();
    assert_eq!(a.as_raw(), b.as_raw());
}

#[test]
fn synthesize_other_sizes_are_gray() {
    for (w, h) in [(1u32, 1u32), (9, 30), (30, 9), (12, 5)] {
        let mut rng = StdRng::seed_from_u64(u64::from(w * 100 + h));
        let count = (w * h) as usize;
        let base = seeded_offsets(&mut rng, 0.35, count);
        let fine = seeded_offsets(&mut rng, 0.1, count);
        match cloth_bumpmap(w, h, &base, &fine) {
            Ok(t) => {
                assert_eq!(t.dimensions(), (w, h));
                assert!(is_gray(t.as_raw()));
            }
            Err(e) => assert_eq!(e, SynthesisError::ZeroFluctuation),
        }
    }
}
