use teams_channel::number::{parse_i64, parse_u64, parse_usize, saturating_mul, to_decimal};
use teams_channel::scan::{
    contains, join_from, replace_all, split_once, split_words, trim, trim_start_char, up_to,
};
use teams_channel::text::{
    chars_of, eq_ignore_ascii_case, is_white_space, str_eq, str_less, string_of,
    to_ascii_lower_char, to_ascii_lowercase,
};

/// Strings with edge cases of all kinds.
fn samples() -> Vec<String> {
    [
        "", " ", "a", " a", "a ", "\t a b \n", "a  b", "\u{a0}x\u{3000}", "A/B/C", "/", "//",
        "1.5", "+7", "-7", "+", "-", "007", "18446744073709551615", "18446744073709551616",
        "9223372036854775807", "-9223372036854775808", "-9223372036854775809", "1_000", "0x10",
        "\u{661}", "&amp;&amp", "aaa", "aaaa", "\u{1f600}\u{e9}", "STRASSE", "stra\u{df}e",
        "\u{130}", "\u{feff}a", "a\u{200b}b", "a\u{85}b", "Zz[`{@", "@@x@",
    ]
    .iter()
    .map(|s| s.to_string())
    .collect()
}

#[test]
fn white_space_is_that_of_unicode() {
    for n in 0..=0x10_ffffu32 {
        if let Some(c) = char::from_u32(n) {
            assert_eq!(is_white_space(c), c.is_whitespace());
        }
    }
}

#[test]
fn lower_case_is_that_of_ascii() {
    for n in 0..=0x3_0000u32 {
        if let Some(c) = char::from_u32(n) {
            assert_eq!(to_ascii_lower_char(c), c.to_ascii_lowercase());
        }
    }
    for s in samples() {
        assert_eq!(to_ascii_lowercase(&s), s.to_ascii_lowercase());
        for t in samples() {
            assert_eq!(eq_ignore_ascii_case(&s, &t), s.eq_ignore_ascii_case(&t));
        }
    }
}

#[test]
fn strings_are_taken_apart_and_put_together() {
    for s in samples() {
        let v = chars_of(&s);
        assert_eq!(v, s.chars().collect::<Vec<char>>());
        assert_eq!(string_of(&v, 0, v.len()), s);
        assert_eq!(string_of(&v, v.len(), v.len()), "");
    }
}

#[test]
fn strings_compare_by_code_point() {
    for s in samples() {
        for t in samples() {
            assert_eq!(str_eq(&s, &t), s == t);
            assert_eq!(str_less(&s, &t), s < t);
        }
    }
}

#[test]
fn trimming_and_splitting_agree_with_std() {
    for s in samples() {
        assert_eq!(trim(&s), s.trim());
        assert_eq!(trim_start_char(&s, '@'), s.trim_start_matches('@'));
        assert_eq!(split_once(&s, '/'), s.split_once('/'));
        assert_eq!(up_to(&s, '.'), s.split('.').next().unwrap());
        let words: Vec<String> = s.split_whitespace().map(|w| w.to_string()).collect();
        assert_eq!(split_words(&s), words);
        assert_eq!(join_from(&words, 0, " "), words.join(" "));
        if !words.is_empty() {
            assert_eq!(join_from(&words, 1, ", "), words[1..].join(", "));
        }
    }
}

#[test]
fn searching_and_replacing_agree_with_std() {
    for s in samples() {
        for p in ["a", "aa", "&amp;", "/", "\u{e9}"] {
            assert_eq!(contains(&s, p), s.contains(p));
            assert_eq!(replace_all(&s, p, "-a-"), s.replace(p, "-a-"));
            assert_eq!(replace_all(&s, p, ""), s.replace(p, ""));
        }
        assert!(contains(&s, ""));
        assert!(contains(&s, &s));
    }
}

#[test]
fn numbers_are_read_as_std_reads_them() {
    for s in samples() {
        assert_eq!(parse_u64(&s), s.parse::<u64>().ok());
        assert_eq!(parse_usize(&s), s.parse::<usize>().ok());
        assert_eq!(parse_i64(&s), s.parse::<i64>().ok());
    }
}

#[test]
fn numbers_are_written_in_decimal() {
    for n in [0, 1, 9, 10, 11, 99, 100, 429, 1_000_000, u64::MAX] {
        assert_eq!(to_decimal(n), n.to_string());
        assert_eq!(parse_u64(&to_decimal(n)), Some(n));
    }
}

#[test]
fn products_saturate() {
    assert_eq!(saturating_mul(3, 4), 12);
    assert_eq!(saturating_mul(u64::MAX, 0), 0);
    assert_eq!(saturating_mul(u64::MAX, 1), u64::MAX);
    assert_eq!(saturating_mul(u64::MAX / 2 + 1, 2), u64::MAX);
    assert_eq!(saturating_mul(u64::MAX, u64::MAX), u64::MAX);
}
