use executainer::text::{
    chars_of, find_char, owned, parse_usize, push_decimal, push_hex_digits, replace, string_of,
    trim_range, trim_str,
};

#[test]
fn replace_matches_from_the_left_without_overlap() {
    assert_eq!(replace("aaa", "aa", "b"), "aaa".replace("aa", "b"));
    assert_eq!(replace("{{X}}-{{X}}", "{{X}}", "y"), "y-y");
    assert_eq!(replace("no match", "{{X}}", "y"), "no match");
    assert_eq!(replace("", "x", "y"), "");
    assert_eq!(replace("ééé", "é", "e"), "eee");
}

#[test]
fn trim_removes_unicode_whitespace_only() {
    assert_eq!(trim_str("  \t hi there \n"), "hi there");
    assert_eq!(trim_str("\u{2003}x\u{2028}"), "x");
    assert_eq!(trim_str("\u{200b}x"), "\u{200b}x");
    assert_eq!(trim_str("   "), "");
    let cs = chars_of("ab  cd  ");
    assert_eq!(trim_range(&cs, 2, 8), (4, 6));
}

#[test]
fn usize_parsing_follows_str_parse() {
    for s in ["0", "7", "+7", "007", "+", "", "-1", "1a", " 1", "18446744073709551615", "18446744073709551616", "++1"] {
        let cs = chars_of(s);
        assert_eq!(parse_usize(&cs, 0, cs.len()), s.parse::<usize>().ok(), "input {s:?}");
    }
}

#[test]
fn numerals_are_written_exactly() {
    let mut s = owned("n=");
    push_decimal(&mut s, 0);
    s.push(',');
    push_decimal(&mut s, 1234567);
    s.push(',');
    push_hex_digits(&mut s, 0xabc, 6);
    assert_eq!(s, "n=0,1234567,000abc");
}

#[test]
fn find_char_gives_the_first_position() {
    let cs = chars_of("a:b:c");
    assert_eq!(find_char(&cs, 0, cs.len(), ':'), Some(1));
    assert_eq!(find_char(&cs, 2, cs.len(), ':'), Some(3));
    assert_eq!(find_char(&cs, 4, cs.len(), ':'), None);
    assert_eq!(string_of(&cs, 2, 5), "b:c");
}
