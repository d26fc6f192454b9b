use voxurf::decimal::{parse_u32, push_decimal};
use voxurf::text::{chars_of, find_from, push_range, str_eq, string_of, string_of_range, trim_bounds};

fn trimmed(s: &str) -> String {
    let cs = chars_of(s);
    let (a, b) = trim_bounds(&cs, 0, cs.len());
    string_of_range(&cs, a, b)
}

#[test]
fn characters_and_strings_convert_both_ways() {
    assert_eq!(chars_of("héllo"), vec!['h', 'é', 'l', 'l', 'o']);
    assert_eq!(string_of(&vec!['a', 'ß', 'c']), "aßc");
    assert_eq!(string_of(&chars_of("")), "");
    assert_eq!(string_of_range(&chars_of("abcdef"), 2, 4), "cd");
    let mut out = String::from("x");
    push_range(&mut out, &chars_of("abcdef"), 1, 3);
    assert_eq!(out, "xbc");
}

#[test]
fn string_equality_compares_characters() {
    assert!(str_eq("abc", "abc"));
    assert!(!str_eq("abc", "abd"));
    assert!(!str_eq("abc", "ab"));
    assert!(str_eq("", ""));
}

#[test]
fn find_from_gives_the_first_index_or_the_length() {
    let cs = chars_of("a b c");
    assert_eq!(find_from(&cs, ' ', 0), 1);
    assert_eq!(find_from(&cs, ' ', 2), 3);
    assert_eq!(find_from(&cs, ' ', 4), 5);
    assert_eq!(find_from(&cs, 'z', 0), 5);
}

#[test]
fn trimming_agrees_with_the_standard_library() {
    for s in ["", " ", "a", "  a b  ", "\t\n x \r\n", "\u{a0}x\u{2003}", "\u{3000}\u{1680}y z\u{85}", "no-space", "\u{200b}z\u{200b}"] {
        assert_eq!(trimmed(s), s.trim());
    }
}

#[test]
fn trimming_a_range_stays_inside_it() {
    let cs = chars_of("  ab  cd  ");
    assert_eq!(trim_bounds(&cs, 0, 10), (2, 8));
    assert_eq!(trim_bounds(&cs, 3, 7), (3, 7));
    assert_eq!(trim_bounds(&cs, 4, 8), (6, 8));
    assert_eq!(trim_bounds(&cs, 1, 5), (2, 4));
    assert_eq!(trim_bounds(&cs, 4, 6), (6, 6));
}

#[test]
fn numerals_are_read_in_base_ten() {
    let read = |s: &str| {
        let cs = chars_of(s);
        parse_u32(&cs, 0, cs.len())
    };
    assert_eq!(read("0"), Some(0));
    assert_eq!(read("12"), Some(12));
    assert_eq!(read("+12"), Some(12));
    assert_eq!(read("4294967295"), Some(u32::MAX));
    assert_eq!(read("4294967296"), None);
    assert_eq!(read(""), None);
    assert_eq!(read("+"), None);
    assert_eq!(read("1a"), None);
    assert_eq!(read("-1"), None);
    let cs = chars_of("ab123cd");
    assert_eq!(parse_u32(&cs, 2, 5), Some(123));
}

#[test]
fn numerals_are_written_in_base_ten() {
    for n in [0usize, 1, 9, 10, 11, 99, 100, 117, 4294967295, usize::MAX] {
        let mut out = String::from("#");
        push_decimal(&mut out, n);
        assert_eq!(out, format!("#{n}"));
    }
}

#[test]
fn written_numerals_are_read_back() {
    for n in [0u32, 3, 6, 9, 12, 300, 65535, u32::MAX] {
        let mut out = String::new();
        push_decimal(&mut out, n as usize);
        let cs = chars_of(&out);
        assert_eq!(parse_u32(&cs, 0, cs.len()), Some(n));
    }
}
