use shadereye::diff::{diff_images, diff_pixels};

const PNG_SIGNATURE: [u8; 8] = [0x89, 0x50, 0x4E, 0x47, 0x0D, 0x0A, 0x1A, 0x0A];

fn fraction_differing(differing: u64, total: u64) -> f32 {
    differing as f32 / total as f32
}

#[test]
fn identical_images_zero_diff() {
    let a = vec![10u8; 16 * 16 * 4];
    let r = diff_images(16, 16, &a, &a).ok().unwrap();
    assert_eq!(r.max_abs, 0);
    assert!(fraction_differing(r.differing, r.total_pixels) <= 0.0);
}

#[test]
fn different_images_flag_fail() {
    let a = vec![0u8; 16 * 16 * 4];
    let b = vec![255u8; 16 * 16 * 4];
    let r = diff_images(16, 16, &a, &b).ok().unwrap();
    assert_eq!(r.max_abs, 255);
    assert!(!(fraction_differing(r.differing, r.total_pixels) <= 0.01));
    assert_eq!(&r.diff_png[0..8], &PNG_SIGNATURE);
}

#[test]
fn counts_and_difference_image() {
    // two pixels: the first equal, the second differing by 3 in green and 7 in alpha
    let a = vec![1u8, 2, 3, 4, 10, 20, 30, 40];
    let b = vec![1u8, 2, 3, 4, 10, 23, 30, 33];
    let d = diff_pixels(2, 1, &a, &b).ok().unwrap();
    assert_eq!(d.max_abs, 7);
    assert_eq!(d.sum_abs, 10);
    assert_eq!(d.differing, 1);
    assert_eq!(d.diff_rgba, vec![0, 0, 40, 255, 7, 0, 0, 255]);
}

#[test]
fn diff_is_symmetric() {
    let a = vec![0u8, 50, 100, 150, 200, 250, 5, 9];
    let b = vec![9u8, 5, 250, 200, 150, 100, 50, 0];
    let ab = diff_pixels(2, 1, &a, &b).ok().unwrap();
    let ba = diff_pixels(2, 1, &b, &a).ok().unwrap();
    assert_eq!(ab.max_abs, ba.max_abs);
    assert_eq!(ab.sum_abs, ba.sum_abs);
    assert_eq!(ab.differing, ba.differing);
    assert_eq!(ab.diff_rgba, ba.diff_rgba);
}

#[test]
fn size_mismatch_is_an_error() {
    let a = vec![0u8; 16];
    let b = vec![0u8; 12];
    assert!(diff_images(2, 2, &a, &b).is_err());
    assert!(diff_images(3, 2, &a, &a).is_err());
    assert!(diff_pixels(2, 2, &a, &b).is_err());
}

#[test]
fn zero_sized_images_are_refused_by_the_encoder() {
    let empty: Vec<u8> = Vec::new();
    assert!(diff_pixels(0, 5, &empty, &empty).is_ok());
    assert!(diff_images(0, 5, &empty, &empty).is_err());
}

#[test]
fn difference_png_encodes_the_difference_image() {
    let a = vec![0u8; 4 * 4 * 4];
    let mut b = a.clone();
    b[0] = 200;
    let r = diff_images(4, 4, &a, &b).ok().unwrap();
    assert_eq!(r.differing, 1);
    assert_eq!(r.total_pixels, 16);
    assert_eq!(&r.diff_png[0..8], &PNG_SIGNATURE);
    assert_ne!(r.diff_png, diff_pixels(4, 4, &a, &b).ok().unwrap().diff_rgba);
}
