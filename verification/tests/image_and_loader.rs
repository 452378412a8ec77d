use image_processor::args::{Args, PathChecks};
use image_processor::error::{IoErrorKind, ProcessorError};
use image_processor::image_loader::{ImageData, RgbaPixels};
use image_processor::paths::{join_path, paths_equal};
use image_processor::plugin_loader::{
    check_plugin_params, find_library_path, library_candidate, platform_lib_name, Platform,
};

#[test]
fn image_from_raw_parts_accepts_exact_buffer() {
    let img = ImageData::from_raw_parts(2, 1, vec![1, 2, 3, 4, 5, 6, 7, 8]).unwrap();
    assert_eq!(img.width, 2);
    assert_eq!(img.height, 1);
    assert_eq!(img.pixels, vec![1, 2, 3, 4, 5, 6, 7, 8]);
    assert_eq!(img.expected_buffer_size(), 8);
}

#[test]
fn image_from_raw_parts_errors() {
    assert!(matches!(
        ImageData::from_raw_parts(0, 5, vec![]),
        Err(ProcessorError::InvalidDimensions(0, 5))
    ));
    assert!(matches!(
        ImageData::from_raw_parts(70000, 70000, vec![]),
        Err(ProcessorError::InvalidDimensions(70000, 70000))
    ));
    assert!(matches!(
        ImageData::from_raw_parts(2, 2, vec![0; 15]),
        Err(ProcessorError::BufferSizeMismatch(16, 15))
    ));
}

#[test]
fn image_round_trip_through_image_crate() {
    let img = ImageData::from_raw_parts(1, 2, vec![9, 8, 7, 6, 5, 4, 3, 2]).unwrap();
    let rgba = img.to_rgba().unwrap();
    assert_eq!(rgba.image.dimensions(), (1, 2));
    let back = ImageData::from_rgba(rgba).unwrap();
    assert_eq!((back.width, back.height), (1, 2));
    assert_eq!(back.pixels, vec![9, 8, 7, 6, 5, 4, 3, 2]);
}

#[test]
fn image_from_rgba_checks_dimensions() {
    let buffer = image::RgbaImage::from_raw(0, 3, vec![]).unwrap();
    assert!(matches!(
        ImageData::from_rgba(RgbaPixels { image: buffer }),
        Err(ProcessorError::InvalidDimensions(0, 3))
    ));
    let longer = image::RgbaImage::from_raw(1, 1, vec![1, 2, 3, 4, 5]).unwrap();
    assert!(matches!(
        ImageData::from_rgba(RgbaPixels { image: longer }),
        Err(ProcessorError::BufferSizeMismatch(4, 5))
    ));
}

#[test]
fn image_to_rgba_needs_enough_bytes() {
    let short = ImageData { width: 2, height: 2, pixels: vec![0; 15] };
    assert!(matches!(short.to_rgba(), Err(ProcessorError::InvalidDimensions(2, 2))));
}

#[test]
fn image_pixels_mut_writes_through() {
    let mut img = ImageData::from_raw_parts(1, 1, vec![0, 0, 0, 0]).unwrap();
    img.pixels_mut()[2] = 42;
    assert_eq!(img.pixels, vec![0, 0, 42, 0]);
    assert_eq!((img.width, img.height), (1, 1));
}

fn sample_args(input: &str, output: &str) -> Args {
    Args {
        input: input.to_string(),
        output: output.to_string(),
        plugin: "mirror".to_string(),
        params: "params.txt".to_string(),
        plugin_path: "target/debug".to_string(),
    }
}

fn all_exist() -> PathChecks {
    PathChecks { input_exists: true, params_exists: true, plugin_path_exists: true }
}

#[test]
fn validate_accepts_distinct_paths() {
    assert!(sample_args("in.png", "out.png").validate(&all_exist(), Platform::Linux).is_ok());
}

#[test]
fn validate_reports_missing_input_first() {
    let checks = PathChecks { input_exists: false, params_exists: false, plugin_path_exists: false };
    match sample_args("in.png", "in.png").validate(&checks, Platform::Linux) {
        Err(ProcessorError::ParamsRead(e)) => {
            assert_eq!(e.kind, IoErrorKind::NotFound);
            assert_eq!(e.message, "Input file not found: \"in.png\"");
        }
        other => panic!("unexpected {:?}", other),
    }
}

#[test]
fn validate_reports_missing_params_and_plugin_dir() {
    let checks = PathChecks { input_exists: true, params_exists: false, plugin_path_exists: true };
    match sample_args("in.png", "out.png").validate(&checks, Platform::Linux) {
        Err(ProcessorError::ParamsRead(e)) => {
            assert_eq!(e.kind, IoErrorKind::NotFound);
            assert_eq!(e.message, "Params file not found: \"params.txt\"");
        }
        other => panic!("unexpected {:?}", other),
    }
    let checks = PathChecks { input_exists: true, params_exists: true, plugin_path_exists: false };
    match sample_args("in.png", "out.png").validate(&checks, Platform::Linux) {
        Err(ProcessorError::PluginNotFound(m)) => {
            assert_eq!(m, "Plugin directory not found: \"target/debug\"")
        }
        other => panic!("unexpected {:?}", other),
    }
}

#[test]
fn validate_refuses_same_input_and_output() {
    for (a, b) in [("in.png", "in.png"), ("dir/in.png", "dir//in.png"), ("a/./b", "a/b")] {
        match sample_args(a, b).validate(&all_exist(), Platform::Linux) {
            Err(ProcessorError::ParamsRead(e)) => {
                assert_eq!(e.kind, IoErrorKind::InvalidInput);
                assert_eq!(e.message, "Input and output paths cannot be the same");
            }
            other => panic!("unexpected {:?}", other),
        }
    }
}

#[test]
fn plugin_file_names() {
    assert_eq!(platform_lib_name("mirror", Platform::Linux), "libmirror.so");
    assert_eq!(platform_lib_name("blur", Platform::Windows), "blur.dll");
}

#[test]
fn plugin_candidate_paths() {
    assert_eq!(library_candidate("target/debug", "blur", Platform::Linux), "target/debug/libblur.so");
    assert_eq!(library_candidate("plugins/", "blur", Platform::Linux), "plugins/libblur.so");
    assert_eq!(library_candidate("", "blur", Platform::Linux), "libblur.so");
    for base in ["target/debug", "plugins/", "", "/abs"] {
        let expected = std::path::Path::new(base).join("libx.so");
        assert_eq!(library_candidate(base, "x", Platform::Linux), expected.to_str().unwrap());
    }
}

#[test]
fn plugin_lookup_outcome() {
    assert_eq!(find_library_path("d/libm.so".to_string(), true).unwrap(), "d/libm.so");
    match find_library_path("d/libm.so".to_string(), false) {
        Err(ProcessorError::PluginNotFound(m)) => assert_eq!(m, "Expected: \"d/libm.so\""),
        other => panic!("unexpected {:?}", other),
    }
}

#[test]
fn plugin_params_must_not_hold_nul() {
    assert!(check_plugin_params("direction=both").is_ok());
    assert!(matches!(check_plugin_params("a\0b"), Err(ProcessorError::PluginExecution)));
}

#[test]
fn path_comparison_matches_std() {
    let samples = [
        "", ".", "./", "./a", "a", "a/", "a//b", "a/b", "a/./b", "a/b/.", "/a/b", "//a/b", "/",
        "..", "a/../b", "b", ".a", "a/.b", "./a/b",
    ];
    for a in samples {
        for b in samples {
            let expected = std::path::Path::new(a) == std::path::Path::new(b);
            assert_eq!(paths_equal(a, b, Platform::Linux), expected, "{:?} {:?}", a, b);
        }
    }
}

#[test]
fn validate_compares_paths_by_platform() {
    for (a, b) in [(r"img\a.png", "img/a.png"), (r"C:\x\in.png", "c:/x/in.png"), (r"a\.\b", "a/b")] {
        match sample_args(a, b).validate(&all_exist(), Platform::Windows) {
            Err(ProcessorError::ParamsRead(e)) => {
                assert_eq!(e.kind, IoErrorKind::InvalidInput);
                assert_eq!(e.message, "Input and output paths cannot be the same");
            }
            other => panic!("unexpected {:?}", other),
        }
    }
    assert!(sample_args(r"img\a.png", "img/a.png").validate(&all_exist(), Platform::Linux).is_ok());
    assert!(sample_args(r"C:x", r"C:\x").validate(&all_exist(), Platform::Windows).is_ok());
}

#[test]
fn windows_path_comparison() {
    let same = [
        (r"img\a.png", "img/a.png"),
        (r"C:\x", "c:/x"),
        (r"\\server\share\a", "//server/share/a"),
        (r"a\\b\", "a/b"),
        (r"\\?\C:\a", r"\\?\c:\a"),
    ];
    for (a, b) in same {
        assert!(paths_equal(a, b, Platform::Windows), "{:?} {:?}", a, b);
    }
    let different = [
        (r"C:x", r"C:\x"),
        (r"\\?\C:\a", r"C:\a"),
        (r"\\?\C:\a\.", r"\\?\C:\a"),
        (r"\\server\share\a", r"\\server\other\a"),
        ("a", "A"),
    ];
    for (a, b) in different {
        assert!(!paths_equal(a, b, Platform::Windows), "{:?} {:?}", a, b);
    }
}

#[test]
fn plugin_candidate_paths_on_windows() {
    assert_eq!(library_candidate("dir", "mirror", Platform::Windows), r"dir\mirror.dll");
    assert_eq!(library_candidate(r"plugins\", "blur", Platform::Windows), r"plugins\blur.dll");
    assert_eq!(library_candidate("plugins/", "blur", Platform::Windows), "plugins/blur.dll");
    assert_eq!(library_candidate("", "blur", Platform::Windows), "blur.dll");
    assert_eq!(library_candidate("C:", "blur", Platform::Windows), "C:blur.dll");
    assert_eq!(library_candidate(r"C:\p", "blur", Platform::Windows), r"C:\p\blur.dll");
    assert_eq!(library_candidate(r"\\?\C:\p", "blur", Platform::Windows), r"\\?\C:\p\blur.dll");
    match find_library_path(library_candidate("dir", "mirror", Platform::Windows), false) {
        Err(ProcessorError::PluginNotFound(m)) => assert_eq!(m, r#"Expected: "dir\\mirror.dll""#),
        other => panic!("unexpected {:?}", other),
    }
}

#[test]
fn join_matches_std_on_unix() {
    let samples = ["", "a", "a/", "/", "/a", "a//", ".", "a/b"];
    for base in samples {
        for name in samples {
            let expected = std::path::Path::new(base).join(name);
            assert_eq!(join_path(base, name, Platform::Linux), expected.to_str().unwrap(), "{:?} {:?}", base, name);
        }
    }
}

#[test]
fn join_on_windows() {
    let cases = [
        ("", "foo", "foo"),
        ("foo", "bar", r"foo\bar"),
        ("foo/", "bar", "foo/bar"),
        (r"foo\", "bar", r"foo\bar"),
        ("foo", r"\bar", r"\bar"),
        ("c:", "foo", "c:foo"),
        (r"c:\", "foo", r"c:\foo"),
        (r"c:\foo", "C:bar", "C:bar"),
        ("c:foo", r"\bar", r"c:\bar"),
        (r"\\server\share\foo", "bar", r"\\server\share\foo\bar"),
        (r"\\server\share\foo", r"C:baz", "C:baz"),
        (r"\\.\foo", "bar", r"\\.\foo\bar"),
        (r"\\?\C:\a\b", r"C:c\d", r"C:c\d"),
        (r"\\?\C:\a\b", r"\c\d", r"\\?\C:\c\d"),
        (r"\\?\A:\", "foo", r"\\?\A:\foo"),
        (r"\\?\A:\", r"..\foo\.", r"\\?\A:\foo"),
        (r"\\?\A:\x\y", "..", r"\\?\A:\x"),
        (r"\\?\A:", r"..\foo\.", r"\\?\A:\foo"),
        (r"\\?\A:\x\y", r".\..\foo\.", r"\\?\A:\x\foo"),
        (r"\\?\A:\x\y", "", r"\\?\A:\x\y\"),
        (r"\\?\UNC\server\share\x", "y", r"\\?\UNC\server\share\x\y"),
    ];
    for (base, name, expected) in cases {
        assert_eq!(join_path(base, name, Platform::Windows), expected, "{:?} {:?}", base, name);
    }
}
