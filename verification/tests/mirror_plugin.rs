use image_processor::mirror::{apply_mirror, process_image, MirrorDirection, MirrorParams};

fn square_2x2() -> Vec<u8> {
    vec![
        0u8, 0, 0, 255, // (0,0)
        1u8, 1, 1, 255, // (1,0)
        2u8, 2, 2, 255, // (0,1)
        3u8, 3, 3, 255, // (1,1)
    ]
}

#[test]
fn test_mirror_horizontal_2x2() {
    let mut pixels = square_2x2();
    process_image(2, 2, &mut pixels, "");
    assert_eq!(pixels[0], 1);
    assert_eq!(pixels[4], 0);
    assert_eq!(pixels[8], 3);
    assert_eq!(pixels[12], 2);
}

#[test]
fn test_mirror_vertical_2x2() {
    let mut pixels = square_2x2();
    process_image(2, 2, &mut pixels, "direction=vertical");
    assert_eq!(pixels[0], 2);
    assert_eq!(pixels[4], 3);
    assert_eq!(pixels[8], 0);
    assert_eq!(pixels[12], 1);
}

#[test]
fn test_mirror_both_2x2() {
    let mut pixels = square_2x2();
    process_image(2, 2, &mut pixels, "direction=both");
    assert_eq!(pixels[0], 3);
    assert_eq!(pixels[4], 2);
    assert_eq!(pixels[8], 1);
    assert_eq!(pixels[12], 0);
}

#[test]
fn test_mirror_1x1_no_change() {
    let mut pixels = vec![100u8, 150u8, 200u8, 255u8];
    process_image(1, 1, &mut pixels, "");
    assert_eq!(pixels[0], 100);
    assert_eq!(pixels[1], 150);
    assert_eq!(pixels[2], 200);
    assert_eq!(pixels[3], 255);
}

#[test]
fn mirror_direction_keywords() {
    assert_eq!(MirrorDirection::from_str("vertical"), MirrorDirection::Vertical);
    assert_eq!(MirrorDirection::from_str("  V\t"), MirrorDirection::Vertical);
    assert_eq!(MirrorDirection::from_str("FLIP_VERTICAL"), MirrorDirection::Vertical);
    assert_eq!(MirrorDirection::from_str("Both"), MirrorDirection::Both);
    assert_eq!(MirrorDirection::from_str("b"), MirrorDirection::Both);
    assert_eq!(MirrorDirection::from_str("flip_both\n"), MirrorDirection::Both);
    assert_eq!(MirrorDirection::from_str("horizontal"), MirrorDirection::Horizontal);
    assert_eq!(MirrorDirection::from_str("diagonal"), MirrorDirection::Horizontal);
    assert_eq!(MirrorDirection::from_str(""), MirrorDirection::Horizontal);
    assert_eq!(MirrorDirection::default(), MirrorDirection::Horizontal);
}

#[test]
fn mirror_keyword_is_exact() {
    let word: Vec<char> = "vertical".chars().collect();
    assert_eq!(MirrorDirection::from_keyword(&word), MirrorDirection::Vertical);
    let upper: Vec<char> = "VERTICAL".chars().collect();
    assert_eq!(MirrorDirection::from_keyword(&upper), MirrorDirection::Horizontal);
    let spaced: Vec<char> = " both".chars().collect();
    assert_eq!(MirrorDirection::from_keyword(&spaced), MirrorDirection::Horizontal);
}

#[test]
fn mirror_params_entries() {
    assert_eq!(MirrorParams::parse("").direction, MirrorDirection::Horizontal);
    assert_eq!(
        MirrorParams::parse("mode=fast\ndirection = Vertical\r\n").direction,
        MirrorDirection::Vertical
    );
    assert_eq!(
        MirrorParams::parse("direction=both,direction=v").direction,
        MirrorDirection::Vertical
    );
    assert_eq!(MirrorParams::parse("direction=both=v").direction, MirrorDirection::Horizontal);
    assert_eq!(MirrorParams::parse("Direction=both").direction, MirrorDirection::Horizontal);
}

#[test]
fn mirror_horizontal_odd_width_keeps_middle() {
    let mut data = vec![1u8, 1, 1, 1, 2, 2, 2, 2, 3, 3, 3, 3, 77];
    apply_mirror(&mut data, 3, 1, MirrorDirection::Horizontal);
    assert_eq!(data, vec![3, 3, 3, 3, 2, 2, 2, 2, 1, 1, 1, 1, 77]);
}

#[test]
fn mirror_twice_gives_back_image() {
    let original: Vec<u8> = (0..(3 * 2 * 4) as u8).collect();
    for d in [MirrorDirection::Horizontal, MirrorDirection::Vertical, MirrorDirection::Both] {
        let mut data = original.clone();
        apply_mirror(&mut data, 3, 2, d);
        assert_ne!(data, original);
        apply_mirror(&mut data, 3, 2, d);
        assert_eq!(data, original);
    }
}

#[test]
fn mirror_horizontal_then_vertical_is_both() {
    let original: Vec<u8> = (0..(2 * 3 * 4) as u8).collect();
    let mut hv = original.clone();
    apply_mirror(&mut hv, 2, 3, MirrorDirection::Horizontal);
    apply_mirror(&mut hv, 2, 3, MirrorDirection::Vertical);
    let mut vh = original.clone();
    apply_mirror(&mut vh, 2, 3, MirrorDirection::Vertical);
    apply_mirror(&mut vh, 2, 3, MirrorDirection::Horizontal);
    let mut both = original.clone();
    apply_mirror(&mut both, 2, 3, MirrorDirection::Both);
    assert_eq!(hv, both);
    assert_eq!(vh, both);
}

#[test]
fn mirror_zero_size_changes_nothing() {
    let mut data = vec![5u8, 6, 7, 8];
    process_image(0, 3, &mut data, "direction=both");
    assert_eq!(data, vec![5, 6, 7, 8]);
}
