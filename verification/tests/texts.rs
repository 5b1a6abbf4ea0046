//! Text and decimal numerals.
use code_graph::decimal::{i64_text, parse_i32, parse_i64, u64_text, usize_text};
use code_graph::text::{
    after_prefix, chars_of, contains_text, has_text, is_empty_text, same_text, slice_bytes,
    split_on, string_of, strip_of, strip_start_of, trim, CharClass,
};

#[test]
fn numerals_read_back() {
    for n in [0, 1, 9, 10, 42, 1_700_000_000, i64::MAX, i64::MIN, -1, -10] {
        assert_eq!(i64_text(n), format!("{}", n));
        assert_eq!(parse_i64(&i64_text(n)), Some(n));
    }
    assert_eq!(u64_text(u64::MAX), "18446744073709551615");
    assert_eq!(usize_text(205), "205");
}

#[test]
fn numbers_are_read_as_std_reads_them() {
    for s in [
        "", "+", "-", "+7", "-0", "007", " 7", "7 ", "7a", "9223372036854775807",
        "9223372036854775808", "-9223372036854775808", "-9223372036854775809", "2147483647",
        "2147483648", "-2147483648", "-2147483649", "99999999999999999999999999", "--1", "1.0",
    ] {
        assert_eq!(parse_i64(s), s.parse::<i64>().ok(), "{s:?}");
        assert_eq!(parse_i32(s), s.parse::<i32>().ok(), "{s:?}");
    }
}

#[test]
fn trimming_is_that_of_std() {
    for s in ["", " ", "a", " a ", "\t\n a b \u{a0}\u{3000}", "\u{85}x\u{2028}", "\u{200b}x"] {
        assert_eq!(trim(s), s.trim(), "{s:?}");
    }
}

#[test]
fn splitting_is_that_of_std() {
    for s in ["", ",", "a", "a,b", ",a,,b,", "é,ü"] {
        let expected: Vec<String> = s.split(',').map(|p| p.to_string()).collect();
        assert_eq!(split_on(s, ','), expected, "{s:?}");
    }
}

#[test]
fn searching_is_that_of_std() {
    for s in ["", "a", "abcabd", "aaab", "grün"] {
        for part in ["", "a", "abd", "aab", "ü", "x", "abcabdx"] {
            assert_eq!(contains_text(s, part), s.contains(part), "{s:?} {part:?}");
            assert_eq!(
                after_prefix(s, part),
                s.strip_prefix(part).map(|r| r.to_string()),
                "{s:?} {part:?}"
            );
        }
    }
}

#[test]
fn slices_are_those_of_std() {
    let s = "aéü𝄞z";
    for from in 0..12 {
        for to in 0..12 {
            assert_eq!(
                slice_bytes(s, from, to),
                s.get(from..to).map(|r| r.to_string()),
                "{from}..{to}"
            );
        }
    }
}

#[test]
fn stripping_takes_a_class_of_characters() {
    assert_eq!(strip_start_of("rbx", CharClass::LiteralPrefix), "x");
    assert_eq!(strip_start_of("xrb", CharClass::LiteralPrefix), "xrb");
    assert_eq!(strip_of("'\"a'b\"'", CharClass::Quote), "a'b");
    assert_eq!(strip_of("''", CharClass::Quote), "");
}

#[test]
fn small_helpers() {
    assert!(same_text("é", "é") && !same_text("e", "é"));
    assert!(is_empty_text("") && !is_empty_text(" "));
    assert_eq!(chars_of("aé"), vec!['a', 'é']);
    assert_eq!(string_of(&vec!['a', 'b', 'c'], 1, 3), "bc");
    let list = vec!["x".to_string(), "y".to_string()];
    assert!(has_text(&list, "y") && !has_text(&list, "z"));
}
