use syskit::text::{
    chars_of, digit_text, is_whitespace, push_decimal, read_digit, read_unsigned, same_text,
    split_words,
};

#[test]
fn same_text_compares_characters() {
    assert!(same_text("", ""));
    assert!(same_text("quit", "quit"));
    assert!(!same_text("quit", "quiT"));
    assert!(!same_text("quit", "qui"));
    assert!(!same_text("q", "quit"));
    assert!(same_text("naïve", "naïve"));
}

#[test]
fn chars_of_lists_the_characters() {
    assert_eq!(chars_of(""), Vec::<char>::new());
    assert_eq!(chars_of("a-b"), vec!['a', '-', 'b']);
    assert_eq!(chars_of("é√"), vec!['é', '√']);
}

#[test]
fn read_digit_knows_each_base() {
    assert_eq!(read_digit('0', 2), Some(0));
    assert_eq!(read_digit('1', 2), Some(1));
    assert_eq!(read_digit('2', 2), None);
    assert_eq!(read_digit('9', 10), Some(9));
    assert_eq!(read_digit('a', 10), None);
    assert_eq!(read_digit('a', 16), Some(10));
    assert_eq!(read_digit('F', 16), Some(15));
    assert_eq!(read_digit('g', 16), None);
    assert_eq!(read_digit('z', 36), Some(35));
    assert_eq!(read_digit('Z', 36), Some(35));
    assert_eq!(read_digit(' ', 36), None);
    assert_eq!(read_digit('/', 10), None);
    assert_eq!(read_digit(':', 10), None);
    assert_eq!(read_digit('@', 16), None);
    assert_eq!(read_digit('`', 16), None);
    assert_eq!(read_digit('{', 36), None);
    assert_eq!(read_digit('٣', 10), None);
}

#[test]
fn read_digit_agrees_with_the_standard_library() {
    for radix in [2u32, 8, 10, 16, 36] {
        for code in 0u32..0x250 {
            let c = char::from_u32(code).unwrap();
            assert_eq!(read_digit(c, radix), c.to_digit(radix));
        }
    }
}

#[test]
fn read_unsigned_reads_decimal() {
    assert_eq!(read_unsigned(&chars_of("0"), 10), Some(0));
    assert_eq!(read_unsigned(&chars_of("42"), 10), Some(42));
    assert_eq!(read_unsigned(&chars_of("+42"), 10), Some(42));
    assert_eq!(read_unsigned(&chars_of("0042"), 10), Some(42));
    assert_eq!(read_unsigned(&chars_of("18446744073709551615"), 10), Some(usize::MAX));
    assert_eq!(read_unsigned(&chars_of("18446744073709551616"), 10), None);
    assert_eq!(read_unsigned(&chars_of("99999999999999999999"), 10), None);
    assert_eq!(read_unsigned(&chars_of(""), 10), None);
    assert_eq!(read_unsigned(&chars_of("+"), 10), None);
    assert_eq!(read_unsigned(&chars_of("-3"), 10), None);
    assert_eq!(read_unsigned(&chars_of("4 2"), 10), None);
    assert_eq!(read_unsigned(&chars_of("4a"), 10), None);
}

#[test]
fn read_unsigned_agrees_with_the_standard_library() {
    let samples = ["", "+", "0", "+0", "12", "012", "1e3", "zz", "ZZ", "18446744073709551615",
        "18446744073709551616", "3w5e11264sgsf", "3w5e11264sgsg", "1111111111111111"];
    for radix in [2u32, 10, 16, 36] {
        for text in samples {
            assert_eq!(
                read_unsigned(&chars_of(text), radix),
                usize::from_str_radix(text, radix).ok(),
                "{} in base {}",
                text,
                radix
            );
        }
    }
}

#[test]
fn digit_text_is_one_digit() {
    let digits = ["0", "1", "2", "3", "4", "5", "6", "7", "8", "9"];
    for d in 0..10u32 {
        assert_eq!(digit_text(d), digits[d as usize]);
    }
}

#[test]
fn push_decimal_appends_the_numeral() {
    let mut out = String::from("n=");
    push_decimal(&mut out, 0);
    assert_eq!(out, "n=0");
    push_decimal(&mut out, 7);
    push_decimal(&mut out, 10);
    push_decimal(&mut out, 4294967295);
    assert_eq!(out, "n=07104294967295");
    for n in [1u32, 9, 11, 99, 100, 101, 1000, 65535, 1_000_000_007] {
        let mut text = String::new();
        push_decimal(&mut text, n);
        assert_eq!(text, n.to_string());
    }
}

#[test]
fn whitespace_is_that_of_the_standard_library() {
    for code in 0u32..0x3100 {
        if let Some(c) = char::from_u32(code) {
            assert_eq!(is_whitespace(c), c.is_whitespace(), "{:x}", code);
        }
    }
    assert!(!is_whitespace('\u{feff}'));
    assert!(!is_whitespace('\u{200b}'));
}

#[test]
fn split_words_cuts_at_white_space() {
    assert_eq!(split_words(""), Vec::<String>::new());
    assert_eq!(split_words("   \t\n"), Vec::<String>::new());
    assert_eq!(split_words("run"), vec!["run"]);
    assert_eq!(split_words("  break   *0x4011a0 \n"), vec!["break", "*0x4011a0"]);
    assert_eq!(split_words("r a\tb\u{a0}c\u{3000}d"), vec!["r", "a", "b", "c", "d"]);
    assert_eq!(split_words("x"), vec!["x"]);
    assert_eq!(split_words(" x"), vec!["x"]);
    assert_eq!(split_words("x "), vec!["x"]);
}

#[test]
fn split_words_agrees_with_the_standard_library() {
    let samples = ["", " ", "a", " a", "a ", "a b", "  a  b  ", "break main", "run\t1 2\r\n",
        "ü ö\u{2003}ä", "\u{85}x\u{1680}y\u{2028}z\u{205f}", "a\u{200b}b", "tab\there"];
    for text in samples {
        let expected: Vec<String> = text.split_whitespace().map(|w| w.to_string()).collect();
        assert_eq!(split_words(text), expected, "{:?}", text);
    }
}
