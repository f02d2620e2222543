use amdgpu_top_nvitop::text::{
    chars_of, decimal, pad_left_chars, parse_unsigned_chars, signed_decimal, split_lines,
    split_words, string_of, take_chars, trim_chars,
};

fn strs(v: Vec<Vec<char>>) -> Vec<String> {
    v.into_iter().map(|w| w.into_iter().collect()).collect()
}

#[test]
fn unsigned_parsing_follows_from_str_radix() {
    let p = |s: &str, radix: u32, max: u64| parse_unsigned_chars(&chars_of(s), radix, max);
    assert_eq!(p("255", 10, 255), Some(255));
    assert_eq!(p("256", 10, 255), None);
    assert_eq!(p("+7", 10, 255), Some(7));
    assert_eq!(p("+", 10, 255), None);
    assert_eq!(p("", 10, 255), None);
    assert_eq!(p("-1", 10, 255), None);
    assert_eq!(p("fF", 16, 255), Some(255));
    assert_eq!(p("18446744073709551615", 10, u64::MAX), Some(u64::MAX));
    assert_eq!(p("18446744073709551616", 10, u64::MAX), None);
}

#[test]
fn lines_split_like_str_lines() {
    let l = |s: &str| strs(split_lines(&chars_of(s)));
    assert_eq!(l("a\r\nb\n\nc\n"), vec!["a", "b", "", "c"]);
    assert_eq!(l("a\rb\r"), vec!["a\rb\r"]);
    assert_eq!(l(""), Vec::<String>::new());
    assert_eq!(l("\n"), vec![""]);
}

#[test]
fn words_split_on_unicode_whitespace() {
    let w = |s: &str| strs(split_words(&chars_of(s)));
    assert_eq!(w("  cpu0\t1 \u{a0}2\u{3000}3 "), vec!["cpu0", "1", "2", "3"]);
    assert_eq!(w("   "), Vec::<String>::new());
}

#[test]
fn trimming_and_taking() {
    assert_eq!(string_of(&trim_chars(&chars_of(" \t x y \n"))), "x y");
    assert_eq!(string_of(&take_chars(&chars_of("héllo"), 2)), "hé");
    assert_eq!(string_of(&take_chars(&chars_of("hi"), 5)), "hi");
}

#[test]
fn decimal_text() {
    assert_eq!(string_of(&decimal(0)), "0");
    assert_eq!(string_of(&decimal(1_234_567)), "1234567");
    assert_eq!(string_of(&signed_decimal(-42)), "-42");
    assert_eq!(string_of(&signed_decimal(i64::MIN)), "-9223372036854775808");
    assert_eq!(string_of(&pad_left_chars(decimal(7), 3, '0')), "007");
    assert_eq!(string_of(&pad_left_chars(decimal(1234), 3, ' ')), "1234");
}
