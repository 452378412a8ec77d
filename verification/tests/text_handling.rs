use image_processor::text::{is_white_space_char, parse_u32_chars, split_chars, trim_chars};

fn chars(s: &str) -> Vec<char> {
    s.chars().collect()
}

#[test]
fn white_space_matches_std() {
    for u in 0u32..=0x10FFFF {
        if let Some(c) = char::from_u32(u) {
            assert_eq!(is_white_space_char(c), c.is_whitespace(), "{:#x}", u);
        }
    }
}

#[test]
fn trim_matches_std() {
    for s in ["", "  ", " a b ", "\u{3000}x\u{85}", "\t\nkey\r", "x"] {
        assert_eq!(trim_chars(&chars(s)), chars(s.trim()));
    }
}

#[test]
fn split_matches_std() {
    for s in ["", ",", "a,,b", "a,b,", ",a", "abc"] {
        let ours: Vec<String> =
            split_chars(&chars(s), &vec![',']).iter().map(|p| p.iter().collect()).collect();
        let theirs: Vec<String> = s.split(',').map(|p| p.to_string()).collect();
        assert_eq!(ours, theirs);
    }
}

#[test]
fn parse_u32_matches_std() {
    for s in [
        "", "+", "-", "0", "+0", "-0", "42", "+42", "++4", "4 2", " 4", "4294967295", "4294967296",
        "99999999999", "007", "1a", "٣",
    ] {
        assert_eq!(parse_u32_chars(&chars(s)), s.parse::<u32>().ok(), "{:?}", s);
    }
}
