use fluxvm::number::{parse_unsigned, to_decimal, to_hex_byte};
use fluxvm::order::{is_before, sort_unique};
use fluxvm::path::{is_same_path, join};
use fluxvm::text::{
    ends_with, is_white, lower, same, split_fields, split_lines, split_once, strip_back,
    strip_front, trim, Strip,
};

fn words(list: &[&str]) -> Vec<String> {
    list.iter().map(|s| s.to_string()).collect()
}

#[test]
fn white_space_is_that_of_unicode() {
    for n in 0..=0x10ffffu32 {
        if let Some(c) = char::from_u32(n) {
            assert_eq!(is_white(c), c.is_whitespace(), "{n:x}");
        }
    }
}

#[test]
fn trimming_takes_white_space_off_both_ends() {
    for s in ["", " ", "a", " a ", "\t a b \r\n", "\u{3000}x\u{a0}", "..a.."] {
        assert_eq!(trim(s), s.trim());
        assert_eq!(strip_front(s, &Strip::Only('.')), s.trim_start_matches('.'));
        assert_eq!(strip_back(s, &Strip::Only('.')), s.trim_end_matches('.'));
    }
}

#[test]
fn lowering_touches_ascii_letters_only() {
    for s in ["", "AbZ09", "ÄÖ", "TCP", "İ"] {
        assert_eq!(lower(s), s.to_ascii_lowercase());
    }
}

#[test]
fn cutting_happens_at_the_first_separator() {
    assert_eq!(split_once("a/b/c", '/'), Some(("a", "b/c")));
    assert_eq!(split_once("/", '/'), Some(("", "")));
    assert_eq!(split_once("abc", '/'), None);
    assert!(ends_with("a.example.com", ".example.com"));
    assert!(!ends_with("com", "example.com"));
    assert!(same("x", "x"));
    assert!(!same("x", "y"));
}

#[test]
fn lines_and_fields_are_those_of_std() {
    for s in ["", "\n", "a\nb", "a\r\nb\n", "a\n\nb\r", " x  y\tz \n\n w "] {
        assert_eq!(split_lines(s), s.lines().collect::<Vec<_>>());
        assert_eq!(split_fields(s), s.split_whitespace().collect::<Vec<_>>());
    }
}

#[test]
fn numbers_are_read_as_std_reads_them() {
    for s in [
        "", "0", "7", "+7", "-7", "++7", "+", "007", "255", "256", "65535", "65536", "4294967295",
        "4294967296", "18446744073709551615", "18446744073709551616", "1x", " 1",
    ] {
        assert_eq!(parse_unsigned(s, 255), s.parse::<u8>().ok().map(|n| n as u64), "{s:?}");
        assert_eq!(parse_unsigned(s, 0xffff), s.parse::<u16>().ok().map(|n| n as u64), "{s:?}");
        assert_eq!(parse_unsigned(s, 0xffff_ffff), s.parse::<u32>().ok().map(|n| n as u64));
        assert_eq!(parse_unsigned(s, u64::MAX), s.parse::<u64>().ok());
    }
}

#[test]
fn numbers_are_written_as_std_writes_them() {
    for n in [0u64, 9, 10, 28, 12345, u32::MAX as u64, u64::MAX] {
        assert_eq!(to_decimal(n), n.to_string());
    }
    for b in 0..=255u8 {
        assert_eq!(to_hex_byte(b), format!("{b:02x}"));
    }
}

#[test]
fn sorting_is_that_of_std() {
    let list = words(&["b", "a", "10.0.0.0/8", "a", "", "é", "ab", "A", "b"]);
    let mut expected = list.clone();
    expected.sort();
    expected.dedup();
    assert_eq!(sort_unique(&list), expected);
    for a in &list {
        for b in &list {
            assert_eq!(is_before(a, b), a < b, "{a:?} {b:?}");
        }
    }
}

#[test]
fn paths_are_joined_as_std_joins_them() {
    for (a, b) in [
        ("/sys/fs/bpf", "x"), ("/sys/fs/bpf/", "x"), ("", "x"), ("/a", "/b"), ("/a", ""), ("a", "b/c"),
    ] {
        let expected = std::path::Path::new(a).join(b);
        assert_eq!(join(a, b), expected.to_str().unwrap());
    }
}

#[test]
fn paths_are_compared_as_std_compares_them() {
    let all = [
        "/a/b", "/a//b", "/a/./b", "/a/b/", "a/b", "./a/b", "", ".", "/", "//", "/a/../b", "/b",
    ];
    for a in all {
        for b in all {
            let expected = std::path::Path::new(a) == std::path::Path::new(b);
            assert_eq!(is_same_path(a, b), expected, "{a:?} {b:?}");
        }
    }
}
