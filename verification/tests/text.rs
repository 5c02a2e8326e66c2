use sglaz::text::{chars_of, decimal_of, has_prefix, index_of, same, string_of, trim_str, trim_tail, white};

#[test]
fn white_is_unicode_white_space() {
    for n in 0..=0x10ffffu32 {
        if let Some(c) = char::from_u32(n) {
            assert_eq!(white(c), c.is_whitespace(), "{:x}", n);
        }
    }
}

#[test]
fn trim_str_agrees_with_trim() {
    for s in ["", " ", "a", " a ", "\u{3000}a b\u{85}\n", "\t\r\n", "a\u{200b}", "x y"] {
        assert_eq!(trim_str(s), s.trim());
    }
}

#[test]
fn decimal_of_agrees_with_to_string() {
    for n in [0u32, 1, 9, 10, 99, 100, 200, 4095, 1_000_000, u32::MAX] {
        assert_eq!(decimal_of(n), n.to_string());
    }
}

#[test]
fn chars_and_strings_convert_back() {
    let s = "a\u{e9}\u{1f441}z";
    let cs = chars_of(s);
    assert_eq!(cs, vec!['a', '\u{e9}', '\u{1f441}', 'z']);
    assert_eq!(string_of(&cs), s);
}

#[test]
fn trim_tail_takes_every_trailing_character() {
    let cs = chars_of("http://x//");
    assert_eq!(string_of(trim_tail(&cs, '/')), "http://x");
    let all = chars_of("///");
    assert_eq!(string_of(trim_tail(&all, '/')), "");
}

#[test]
fn searching_and_comparing() {
    let cs = chars_of("a=b=c");
    assert_eq!(index_of(&cs, '='), 1);
    assert_eq!(index_of(&cs, '?'), 5);
    assert!(has_prefix(&cs, &['a', '=']));
    assert!(!has_prefix(&cs, &['b']));
    assert!(has_prefix(&cs, &[]));
    assert!(same("x", "x"));
    assert!(!same("x", "xy"));
    assert!(!same("xy", "x"));
    assert!(!same("x", "X"));
}
