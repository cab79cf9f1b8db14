use mod_manager::text::{before_first_exec, chars_of, concat_strs, decimal_exec, find_chars, parse_u64, str_eq, string_from_chars};

#[test]
fn parse_u64_reads_plain_digits() {
    assert_eq!(parse_u64("123"), Some(123));
    assert_eq!(parse_u64("0"), Some(0));
    assert_eq!(parse_u64("007"), Some(7));
}

#[test]
fn parse_u64_accepts_one_plus_sign() {
    assert_eq!(parse_u64("+5"), Some(5));
    assert_eq!(parse_u64("+"), None);
    assert_eq!(parse_u64("++5"), None);
}

#[test]
fn parse_u64_rejects_other_text() {
    assert_eq!(parse_u64(""), None);
    assert_eq!(parse_u64("-5"), None);
    assert_eq!(parse_u64("12a"), None);
    assert_eq!(parse_u64(" 1"), None);
    assert_eq!(parse_u64("\u{0663}"), None);
}

#[test]
fn parse_u64_limits() {
    assert_eq!(parse_u64("18446744073709551615"), Some(u64::MAX));
    assert_eq!(parse_u64("18446744073709551616"), None);
    assert_eq!(parse_u64("99999999999999999999x"), None);
}

#[test]
fn parse_u64_agrees_with_std() {
    for s in ["42", "+42", "-0", "", "+", "1_000", "18446744073709551615", "18446744073709551616", "0x10"] {
        assert_eq!(parse_u64(s), s.parse::<u64>().ok(), "input {:?}", s);
    }
}

#[test]
fn decimal_text_of_numbers() {
    let text: String = decimal_exec(0).into_iter().collect();
    assert_eq!(text, "0");
    let text: String = decimal_exec(1700000000).into_iter().collect();
    assert_eq!(text, "1700000000");
    let text: String = decimal_exec(u64::MAX).into_iter().collect();
    assert_eq!(text, u64::MAX.to_string());
}

#[test]
fn decimal_reads_back() {
    for n in [0u64, 9, 10, 12345, u64::MAX] {
        let text: String = decimal_exec(n).into_iter().collect();
        assert_eq!(parse_u64(&text), Some(n));
    }
}

#[test]
fn find_first_occurrence_in_characters() {
    let s = chars_of("ab__cd__e");
    let pat = chars_of("__");
    assert_eq!(find_chars(&s, &pat), Some(2));
    let none = chars_of("abc");
    assert_eq!(find_chars(&none, &pat), None);
    let wide = chars_of("ÄÖ__x");
    assert_eq!(find_chars(&wide, &pat), Some(2));
}

#[test]
fn before_first_cuts_at_first_match() {
    assert_eq!(before_first_exec("6.0.0+abc+def", "+"), "6.0.0");
    assert_eq!(before_first_exec("6.0.0", "+"), "6.0.0");
    assert_eq!(before_first_exec("+x", "+"), "");
}

#[test]
fn strings_from_characters() {
    assert_eq!(string_from_chars(&['a', 'ß', 'c']), "aßc");
    assert_eq!(concat_strs("BepInEx/", "config"), "BepInEx/config");
    assert!(str_eq("plugins", "plugins"));
    assert!(!str_eq("plugins", "Plugins"));
}
