use vaultseed::number::{parse_uint_chars, dec_string, push_dec, int_error_string, IntErrorKind};
use vaultseed::text::{
    chars_of, trim_chars, char_is_white, string_from_chars, split_chars, join_strings, str_eq,
    strip_leading_chars, chars_start_with, chars_contain,
};

fn kind_of(e: &std::num::ParseIntError) -> IntErrorKind {
    match e.kind() {
        std::num::IntErrorKind::Empty => IntErrorKind::Empty,
        std::num::IntErrorKind::InvalidDigit => IntErrorKind::InvalidDigit,
        std::num::IntErrorKind::PosOverflow => IntErrorKind::PosOverflow,
        other => panic!("unexpected kind {:?}", other),
    }
}

const SAMPLES: [&str; 16] = [
    "", "0", "7", "+7", "+", "-", "-1", "42x", "4294967295", "4294967296", "99999999999",
    "00012", "ff", "FF", "1 2", "١٢",
];

#[test]
fn parse_agrees_with_std_decimal() {
    for s in SAMPLES {
        let ours = parse_uint_chars(&chars_of(s), 10, u32::MAX as u128);
        let std_r = s.parse::<u32>();
        match std_r {
            Ok(v) => assert_eq!(ours, Ok(v as u128), "input {:?}", s),
            Err(e) => assert_eq!(ours, Err(kind_of(&e)), "input {:?}", s),
        }
    }
}

#[test]
fn parse_agrees_with_std_hex() {
    for s in SAMPLES {
        let ours = parse_uint_chars(&chars_of(s), 16, u32::MAX as u128);
        let std_r = u32::from_str_radix(s, 16);
        match std_r {
            Ok(v) => assert_eq!(ours, Ok(v as u128), "input {:?}", s),
            Err(e) => assert_eq!(ours, Err(kind_of(&e)), "input {:?}", s),
        }
    }
}

#[test]
fn error_texts_match_std_display() {
    let empty = "".parse::<u32>().unwrap_err().to_string();
    let digit = "x".parse::<u32>().unwrap_err().to_string();
    let big = "4294967296".parse::<u32>().unwrap_err().to_string();
    assert_eq!(int_error_string(IntErrorKind::Empty), empty);
    assert_eq!(int_error_string(IntErrorKind::InvalidDigit), digit);
    assert_eq!(int_error_string(IntErrorKind::PosOverflow), big);
}

#[test]
fn decimal_formatting() {
    assert_eq!(dec_string(0), "0");
    assert_eq!(dec_string(1234567890), "1234567890");
    assert_eq!(dec_string(u128::MAX), u128::MAX.to_string());
    let mut s = String::from("n=");
    push_dec(&mut s, 905);
    assert_eq!(s, "n=905");
}

#[test]
fn trimming_matches_str_trim() {
    for s in ["", "  ", " a ", "\t\nab c\u{a0}", "\u{3000}x\u{2028}", "x", "\u{200b}y"] {
        let t = trim_chars(&chars_of(s));
        assert_eq!(string_from_chars(&t), s.trim(), "input {:?}", s);
    }
}

#[test]
fn white_space_matches_std() {
    for c in ['\t', ' ', '\u{85}', '\u{a0}', '\u{1680}', '\u{2000}', '\u{200a}', '\u{200b}', '\u{3000}', 'a', '\u{feff}'] {
        assert_eq!(char_is_white(c), c.is_whitespace(), "char {:?}", c);
    }
}

#[test]
fn split_and_join() {
    let parts = split_chars(&chars_of("a,,b,"), ',');
    let texts: Vec<String> = parts.iter().map(|p| string_from_chars(p)).collect();
    assert_eq!(texts, vec!["a", "", "b", ""]);
    assert_eq!(join_strings(&texts, "+"), "a++b+");
    assert_eq!(join_strings(&Vec::new(), ", "), "");
}

#[test]
fn prefixes_and_equality() {
    assert!(str_eq("abc", "abc"));
    assert!(!str_eq("abc", "abd"));
    assert!(chars_start_with(&chars_of("remove-device:x"), &chars_of("remove-")));
    assert!(!chars_start_with(&chars_of("re"), &chars_of("remove")));
    assert!(chars_contain(&chars_of("a:b"), ':'));
    let stripped = strip_leading_chars(&chars_of("ababc"), &chars_of("ab"));
    assert_eq!(string_from_chars(&stripped), "ababc".trim_start_matches("ab"));
}
