use aster_dual::text::{
    chars_of, find_char, has_text, parse_unsigned, push_decimal, same_chars, same_text, string_of,
    trim,
};
use aster_dual::utf16::{decode_utf16_lossy, encode_utf16, wide};

fn number(s: &str, max: u32) -> Option<u32> {
    parse_unsigned(chars_of(s).as_slice(), max)
}

#[test]
fn numbers_are_read_as_the_standard_library_reads_them() {
    let samples = [
        "0", "7", "65535", "65536", "+80", "+", "", "-1", "-0", "++1", " 1", "1 ", "00012", "4294967295",
        "99999999999999999999", "1a", "１",
    ];
    for s in samples {
        assert_eq!(number(s, 0xFFFF), s.parse::<u16>().ok().map(|n| n as u32), "{}", s);
        assert_eq!(number(s, 0xFFFF_FFFF), s.parse::<u32>().ok(), "{}", s);
    }
}

#[test]
fn decimal_notation_is_the_usual_one() {
    for n in [0u64, 9, 10, 99, 100, 65535, 18446744073709551615] {
        let mut s = String::from("x");
        push_decimal(&mut s, n);
        assert_eq!(s, format!("x{}", n));
    }
}

#[test]
fn characters_make_the_string_again() {
    let s = "a\u{0}한𝄞";
    assert_eq!(string_of(chars_of(s).as_slice()), s);
    assert!(same_text(s, s));
    assert!(!same_text(s, "a"));
    assert!(same_chars(&['a'], &['a']));
    assert!(!same_chars(&['a'], &['b']));
}

#[test]
fn search_finds_what_is_there() {
    assert!(has_text("abcabd", "abd"));
    assert!(has_text("abc", ""));
    assert!(has_text("", ""));
    assert!(!has_text("ab", "abc"));
    assert!(!has_text("abcab", "abd"));
    let text = chars_of("a:b:c");
    assert_eq!(find_char(text.as_slice(), 0, ':'), 1);
    assert_eq!(find_char(text.as_slice(), 2, ':'), 3);
    assert_eq!(find_char(text.as_slice(), 4, ':'), 5);
}

#[test]
fn trimming_takes_white_space_at_either_end() {
    for s in ["", "  ", " a b ", "\t\u{3000}x\u{a0}\n", "x", "\u{200b}x"] {
        assert_eq!(trim(s), s.trim());
    }
}

#[test]
fn utf16_is_the_standard_encoding() {
    for s in ["", "abc", "한글", "𝄞a😀", "\u{FFFF}\u{10000}\u{10FFFF}"] {
        let expected: Vec<u16> = s.encode_utf16().collect();
        assert_eq!(encode_utf16(s), expected);
        let mut terminated = expected.clone();
        terminated.push(0);
        assert_eq!(wide(s), terminated);
        let back: String = decode_utf16_lossy(expected.as_slice()).into_iter().collect();
        assert_eq!(back, s);
    }
}

#[test]
fn lone_surrogates_become_replacement_characters() {
    for units in [
        vec![0xD800u16],
        vec![0xDC00, 0x41],
        vec![0xD800, 0x41],
        vec![0xD800, 0xD834, 0xDD1E],
        vec![0xDD1E, 0xD834],
    ] {
        let text: String = decode_utf16_lossy(units.as_slice()).into_iter().collect();
        assert_eq!(text, String::from_utf16_lossy(units.as_slice()));
    }
}
