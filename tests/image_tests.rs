use canvas_engine::image::{resize_bilinear_rgba, resize_nearest_rgba, ImageStore};

fn sample_2x2() -> Vec<u8> {
    vec![
        10, 20, 30, 40, 50, 60, 70, 80, //
        90, 100, 110, 120, 130, 140, 150, 160,
    ]
}

#[test]
fn store_rejects_zero_dimensions() {
    let mut s = ImageStore::new();
    assert!(!s.store_image(1, &[0u8; 16], 0, 2));
    assert!(!s.store_image(1, &[0u8; 16], 2, 0));
    assert!(!s.contains(1));
}

#[test]
fn store_rejects_short_buffer() {
    let mut s = ImageStore::new();
    assert!(!s.store_image(1, &[0u8; 15], 2, 2));
    assert!(!s.contains(1));
}

#[test]
fn store_truncates_surplus() {
    let mut s = ImageStore::new();
    let mut data = sample_2x2();
    data.extend_from_slice(&[1, 2, 3, 4, 5]);
    assert!(s.store_image(7, &data, 2, 2));
    assert_eq!(s.resize_image(7, 2, 2), sample_2x2());
}

#[test]
fn store_overwrites_same_id() {
    let mut s = ImageStore::new();
    assert!(s.store_image(3, &sample_2x2(), 2, 2));
    assert!(s.store_image(3, &[9, 8, 7, 6], 1, 1));
    assert_eq!(s.resize_image(3, 1, 1), vec![9, 8, 7, 6]);
}

#[test]
fn resize_unknown_id_is_empty() {
    let s = ImageStore::new();
    assert!(s.resize_image(42, 4, 4).is_empty());
    assert!(s.resize_image_mode(42, 4, 4, 1).is_empty());
}

#[test]
fn resize_zero_dimension_is_empty() {
    let mut s = ImageStore::new();
    assert!(s.store_image(1, &sample_2x2(), 2, 2));
    assert!(s.resize_image_mode(1, 0, 3, 0).is_empty());
    assert!(s.resize_image_mode(1, 3, 0, 1).is_empty());
}

#[test]
fn nearest_same_size_round_trip() {
    let src = sample_2x2();
    assert_eq!(resize_nearest_rgba(&src, 2, 2, 2, 2), src);
    let mut s = ImageStore::new();
    let odd: Vec<u8> = (0..(3 * 5 * 4)).map(|i| (i * 7 % 256) as u8).collect();
    assert!(s.store_image(2, &odd, 3, 5));
    assert_eq!(s.resize_image_mode(2, 3, 5, 0), odd);
}

#[test]
fn nearest_upscale_duplicates_columns() {
    let src = vec![1, 2, 3, 4, 5, 6, 7, 8];
    let out = resize_nearest_rgba(&src, 2, 1, 4, 1);
    assert_eq!(out, vec![1, 2, 3, 4, 1, 2, 3, 4, 5, 6, 7, 8, 5, 6, 7, 8]);
}

#[test]
fn nearest_downscale_picks_top_left() {
    let out = resize_nearest_rgba(&sample_2x2(), 2, 2, 1, 1);
    assert_eq!(out, vec![10, 20, 30, 40]);
}

#[test]
fn bilinear_interpolates_and_clamps_edge() {
    let src = vec![0, 0, 0, 0, 100, 200, 255, 50];
    let out = resize_bilinear_rgba(&src, 2, 1, 4, 1);
    assert_eq!(
        out,
        vec![0, 0, 0, 0, 50, 100, 128, 25, 100, 200, 255, 50, 100, 200, 255, 50]
    );
}

#[test]
fn bilinear_through_store_mode_one() {
    let mut s = ImageStore::new();
    assert!(s.store_image(5, &[0, 0, 0, 0, 100, 200, 255, 50], 2, 1));
    assert_eq!(s.resize_image_mode(5, 4, 1, 1)[4..8].to_vec(), vec![50, 100, 128, 25]);
    // any mode other than 1 samples the nearest pixel
    assert_eq!(s.resize_image_mode(5, 4, 1, 7)[4..8].to_vec(), vec![0, 0, 0, 0]);
}

#[test]
fn bilinear_two_dimensional_weights() {
    // 2x2 source to 4x4: pixel (1,1) sits halfway between all four corners.
    let src = vec![0, 0, 0, 0, 40, 40, 40, 40, 80, 80, 80, 80, 255, 255, 255, 255];
    let out = resize_bilinear_rgba(&src, 2, 2, 4, 4);
    assert_eq!(out.len(), 64);
    let i = (1 * 4 + 1) * 4;
    // (0 + 40 + 80 + 255) / 4 = 93.75
    assert_eq!(out[i], 94);
    assert_eq!(out[0], 0);
}

#[test]
fn bilinear_bytes_stay_in_range_on_extreme_data() {
    let src = vec![255u8, 0, 255, 0, 0, 255, 0, 255, 255, 255, 0, 0, 0, 0, 255, 255];
    let out = resize_bilinear_rgba(&src, 2, 2, 7, 5);
    assert_eq!(out.len(), 7 * 5 * 4);
    // the same size reproduces the corners exactly
    assert_eq!(resize_bilinear_rgba(&src, 2, 2, 2, 2), src);
}
