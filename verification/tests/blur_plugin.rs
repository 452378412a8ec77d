use image_processor::blur::{apply_box_blur, process_image, BlurParams};

#[test]
fn test_blur_params_default() {
    let params = BlurParams::parse("");
    assert_eq!(params.kernel_size, 3);
    assert_eq!(params.iterations, 1);
    assert_eq!(params.radius(), 1);
}

#[test]
fn test_blur_params_custom() {
    let params = BlurParams::parse("kernel_size=5,iterations=3");
    assert_eq!(params.kernel_size, 5);
    assert_eq!(params.iterations, 3);
    assert_eq!(params.radius(), 2);
}

#[test]
fn test_blur_params_even_kernel() {
    let params = BlurParams::parse("kernel_size=4");
    assert_eq!(params.kernel_size, 5);
}

#[test]
fn test_blur_params_small_kernel() {
    let params = BlurParams::parse("kernel_size=1");
    assert_eq!(params.kernel_size, 3);
}

#[test]
fn test_blur_single_pixel() {
    let mut pixels = vec![100u8, 150u8, 200u8, 255u8];
    process_image(1, 1, &mut pixels, "");
    assert_eq!(pixels[0], 100);
    assert_eq!(pixels[1], 150);
    assert_eq!(pixels[2], 200);
    assert_eq!(pixels[3], 255);
}

#[test]
fn test_blur_uniform_image() {
    let mut pixels = vec![128u8, 128u8, 128u8, 255u8].repeat(9);
    process_image(3, 3, &mut pixels, "");
    for i in 0..9 {
        assert_eq!(pixels[i * 4], 128);
        assert_eq!(pixels[i * 4 + 1], 128);
        assert_eq!(pixels[i * 4 + 2], 128);
    }
}

#[test]
fn test_blur_gradient() {
    let mut pixels = vec![
        0u8, 0u8, 0u8, 255u8, 128u8, 128u8, 128u8, 255u8, 255u8, 255u8, 255u8, 255u8,
    ];
    process_image(1, 3, &mut pixels, "");
    assert!(pixels[4] >= 100 && pixels[4] <= 150);
}

#[test]
fn test_blur_zero_dimensions() {
    let mut pixels = vec![0u8, 0u8, 0u8, 255u8];
    process_image(0, 0, &mut pixels, "");
    assert_eq!(pixels[0], 0);
}

#[test]
fn blur_params_entries_with_spaces_and_plus() {
    let params = BlurParams::parse(" kernel_size = +7 , iterations =\t2 ");
    assert_eq!(params.kernel_size, 7);
    assert_eq!(params.iterations, 2);
}

#[test]
fn blur_params_clamp_iterations() {
    assert_eq!(BlurParams::parse("iterations=0").iterations, 1);
    assert_eq!(BlurParams::parse("iterations=99").iterations, 10);
    assert_eq!(BlurParams::parse("iterations=10").iterations, 10);
}

#[test]
fn blur_params_largest_even_kernel() {
    assert_eq!(BlurParams::parse("kernel_size=4294967294").kernel_size, 4294967295);
    assert_eq!(BlurParams::parse("kernel_size=4294967295").kernel_size, 4294967295);
}

#[test]
fn blur_params_rejected_values_keep_defaults() {
    let p = BlurParams::parse("kernel_size=4294967296,iterations=-3,kernel_size=x9");
    assert_eq!(p.kernel_size, 3);
    assert_eq!(p.iterations, 1);
    let q = BlurParams::parse("kernel_size=5=7,iterations");
    assert_eq!(q.kernel_size, 3);
    assert_eq!(q.iterations, 1);
    let r = BlurParams::parse("radius=9,Kernel_size=9");
    assert_eq!(r.kernel_size, 3);
}

#[test]
fn blur_params_later_entry_wins() {
    let p = BlurParams::parse("kernel_size=9,iterations=4,kernel_size=5");
    assert_eq!(p.kernel_size, 5);
    assert_eq!(p.iterations, 4);
}

#[test]
fn blur_box_mean_exact_values() {
    // 3 x 1 image, radius 1: each pixel averages its in-bounds neighbours.
    let mut data = vec![0u8, 10, 200, 7, 30, 20, 100, 8, 90, 60, 0, 9];
    apply_box_blur(&mut data, 3, 1, 1);
    assert_eq!(data, vec![15, 15, 150, 7, 40, 30, 100, 8, 60, 40, 50, 9]);
}

#[test]
fn blur_keeps_alpha_and_trailing_bytes() {
    let mut data = vec![10u8, 20, 30, 1, 50, 60, 70, 2, 99];
    apply_box_blur(&mut data, 2, 1, 5);
    assert_eq!(data, vec![30, 40, 50, 1, 30, 40, 50, 2, 99]);
}

#[test]
fn blur_two_iterations() {
    // 4 x 1, radius 1, applied twice.
    let mut data = vec![0u8, 0, 0, 0, 0, 0, 0, 0, 0, 0, 0, 0, 120, 120, 120, 0];
    process_image(4, 1, &mut data, "iterations=2");
    // first pass: 0, 0, 40, 60 ; second pass: 0, 13, 33, 50
    assert_eq!(data[0], 0);
    assert_eq!(data[4], 13);
    assert_eq!(data[8], 33);
    assert_eq!(data[12], 50);
}

#[test]
fn blur_result_stays_within_input_range() {
    let mut data = vec![];
    for i in 0..25u8 {
        data.extend_from_slice(&[40 + i, 200 - i, 90 + (i % 3), 255]);
    }
    process_image(5, 5, &mut data, "kernel_size=3,iterations=3");
    for i in 0..25 {
        assert!(data[i * 4] >= 40 && data[i * 4] <= 64);
        assert!(data[i * 4 + 1] >= 176 && data[i * 4 + 1] <= 200);
        assert!(data[i * 4 + 2] >= 90 && data[i * 4 + 2] <= 92);
        assert_eq!(data[i * 4 + 3], 255);
    }
}
