use sustlang::text::{
    chars_are, chars_of, isize_to_string, join_from, parse_isize, parse_u8, parse_usize,
    split_text, string_of, sub_chars,
};

#[test]
fn characters_of_a_string_and_back() {
    let v = chars_of("héllo");
    assert_eq!(v, vec!['h', 'é', 'l', 'l', 'o']);
    assert_eq!(string_of(&v), "héllo");
    assert_eq!(string_of(&Vec::new()), "");
    assert_eq!(chars_of(""), Vec::<char>::new());
}

#[test]
fn sub_chars_copies_a_range() {
    let v = chars_of("abcdef");
    assert_eq!(sub_chars(&v, 1, 4), vec!['b', 'c', 'd']);
    assert_eq!(sub_chars(&v, 2, 2), Vec::<char>::new());
    assert_eq!(sub_chars(&v, 0, 6), v);
}

#[test]
fn chars_are_compares_with_a_word() {
    assert!(chars_are(&chars_of("none"), "none"));
    assert!(!chars_are(&chars_of("none"), "non"));
    assert!(!chars_are(&chars_of(""), "x"));
    assert!(chars_are(&chars_of(""), ""));
}

#[test]
fn split_keeps_empty_pieces() {
    assert_eq!(split_text("a.b.c", '.'), vec!["a", "b", "c"]);
    assert_eq!(split_text("abc", '.'), vec!["abc"]);
    assert_eq!(split_text("", '.'), vec![""]);
    assert_eq!(split_text(".", '.'), vec!["", ""]);
    assert_eq!(split_text("a..b.", '.'), vec!["a", "", "b", ""]);
    assert_eq!(split_text("SET_VAR x  5", ' '), vec!["SET_VAR", "x", "", "5"]);
}

#[test]
fn join_puts_the_separator_between_neighbours() {
    let parts: Vec<String> = vec!["x".into(), "hello".into(), "wide".into(), "world".into()];
    assert_eq!(join_from(&parts, 1, " "), "hello wide world");
    assert_eq!(join_from(&parts, 3, " "), "world");
    assert_eq!(join_from(&parts, 4, " "), "");
    assert_eq!(join_from(&parts, 0, ", "), "x, hello, wide, world");
    let gaps: Vec<String> = vec!["a".into(), "".into(), "b".into()];
    assert_eq!(join_from(&gaps, 0, " "), "a  b");
}

#[test]
fn integers_are_written_in_decimal() {
    assert_eq!(isize_to_string(0), "0");
    assert_eq!(isize_to_string(7), "7");
    assert_eq!(isize_to_string(10), "10");
    assert_eq!(isize_to_string(-1), "-1");
    assert_eq!(isize_to_string(1234567890), "1234567890");
    assert_eq!(isize_to_string(-9080706050), "-9080706050");
    assert_eq!(isize_to_string(isize::MAX), isize::MAX.to_string());
    assert_eq!(isize_to_string(isize::MIN), isize::MIN.to_string());
}

#[test]
fn integers_are_read_like_the_standard_parser_reads_them() {
    let texts = [
        "0",
        "5",
        "+5",
        "-5",
        "-0",
        "+0",
        "007",
        "-007",
        "",
        "+",
        "-",
        "--1",
        "+-1",
        "1_0",
        " 1",
        "1 ",
        "1.0",
        "0x10",
        "٣",
        "9223372036854775807",
        "9223372036854775808",
        "-9223372036854775808",
        "-9223372036854775809",
        "99999999999999999999999999999999999999999999",
        "-99999999999999999999999999999999999999999999",
        "000000000000000000000000000000000000000000001",
    ];
    for text in texts {
        assert_eq!(parse_isize(text), text.parse::<isize>().ok(), "{:?}", text);
    }
}

#[test]
fn indexes_are_read_without_a_minus_sign() {
    let texts = [
        "0",
        "12",
        "+12",
        "-0",
        "-1",
        "",
        "+",
        "1a",
        "18446744073709551615",
        "18446744073709551616",
        "340282366920938463463374607431768211456",
    ];
    for text in texts {
        assert_eq!(parse_usize(text), text.parse::<usize>().ok(), "{:?}", text);
    }
}

#[test]
fn bytes_are_read_up_to_255() {
    for text in ["0", "65", "+65", "255", "256", "-1", "-0", "", "a", "0255", "1000"] {
        assert_eq!(parse_u8(text), text.parse::<u8>().ok(), "{:?}", text);
    }
}
