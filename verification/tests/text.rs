use race_server::number::number_text;
use race_server::text::{
    find, nth_field, nth_tail, parse_u8, push_decimal, push_fixed_width, push_millionths,
    same_bytes, starts_with, trim,
};

fn decimal(n: u64) -> String {
    let mut out = Vec::new();
    push_decimal(&mut out, n);
    String::from_utf8(out).unwrap()
}

fn millionths(v: i64) -> String {
    let mut out = Vec::new();
    push_millionths(&mut out, v);
    String::from_utf8(out).unwrap()
}

#[test]
fn decimal_text_is_the_shortest() {
    assert_eq!(decimal(0), "0");
    assert_eq!(decimal(7), "7");
    assert_eq!(decimal(10), "10");
    assert_eq!(decimal(255), "255");
    assert_eq!(decimal(48900), "48900");
    assert_eq!(decimal(u64::MAX), "18446744073709551615");
}

#[test]
fn decimal_text_appends() {
    let mut out = b"L".to_vec();
    push_decimal(&mut out, 12);
    assert_eq!(out, b"L12".to_vec());
}

#[test]
fn fixed_width_pads_and_cuts() {
    let mut out = Vec::new();
    push_fixed_width(&mut out, 5, 3);
    assert_eq!(out, b"005".to_vec());
    let mut out = Vec::new();
    push_fixed_width(&mut out, 1234, 2);
    assert_eq!(out, b"34".to_vec());
    let mut out = Vec::new();
    push_fixed_width(&mut out, 9, 0);
    assert_eq!(out, Vec::<u8>::new());
}

#[test]
fn millionths_text_drops_trailing_zeros() {
    assert_eq!(millionths(0), "0");
    assert_eq!(millionths(1_000_000), "1");
    assert_eq!(millionths(12_500_000), "12.5");
    assert_eq!(millionths(-250_000), "-0.25");
    assert_eq!(millionths(1), "0.000001");
    assert_eq!(millionths(-3_000_001), "-3.000001");
    assert_eq!(millionths(650_000), "0.65");
    assert_eq!(millionths(i64::MAX), "9223372036854.775807");
    assert_eq!(millionths(i64::MIN), "-9223372036854.775808");
}

#[test]
fn trim_takes_white_space_from_both_ends() {
    assert_eq!(trim(b"  alice \t\r\n"), b"alice");
    assert_eq!(trim(b"a b"), b"a b");
    assert_eq!(trim(b" \x0b\x0c "), b"");
    assert_eq!(trim(b""), b"");
    assert_eq!(trim(b"!ready"), b"!ready");
}

#[test]
fn trim_agrees_with_str_trim_on_ascii() {
    for text in ["", " ", "x", "  x", "x  ", "\tx y\n", " \r\n ", "a\x0bb", "\x0cab\x0b"] {
        assert_eq!(trim(text.as_bytes()), text.trim().as_bytes(), "{:?}", text);
    }
}

#[test]
fn find_gives_the_first_place_or_the_length() {
    assert_eq!(find(b"C:0:hi", 0, b':'), 1);
    assert_eq!(find(b"C:0:hi", 2, b':'), 3);
    assert_eq!(find(b"C:0:hi", 4, b':'), 6);
    assert_eq!(find(b"", 0, b':'), 0);
}

#[test]
fn fields_are_the_pieces_between_separators() {
    let data = b"C:0:hello:world";
    assert_eq!(nth_field(data, b':', 0), Some(&b"C"[..]));
    assert_eq!(nth_field(data, b':', 1), Some(&b"0"[..]));
    assert_eq!(nth_field(data, b':', 2), Some(&b"hello"[..]));
    assert_eq!(nth_field(data, b':', 3), Some(&b"world"[..]));
    assert_eq!(nth_field(data, b':', 4), None);
    assert_eq!(nth_field(b"a::b", b':', 1), Some(&b""[..]));
    assert_eq!(nth_field(b"", b':', 0), Some(&b""[..]));
    assert_eq!(nth_field(b"", b':', 1), None);
}

#[test]
fn fields_agree_with_str_split() {
    for text in ["", ":", "a", "a:b", "a:b:", ":a::b:c", "E:SetSize:1;2;3;4"] {
        let pieces: Vec<&str> = text.split(':').collect();
        for n in 0..pieces.len() + 2 {
            assert_eq!(
                nth_field(text.as_bytes(), b':', n),
                pieces.get(n).map(|p| p.as_bytes()),
                "{:?} {}",
                text,
                n
            );
        }
    }
}

#[test]
fn tails_keep_later_separators() {
    let data = b"Os:0:{\"a\":1}";
    assert_eq!(nth_tail(data, b':', 0), Some(&data[..]));
    assert_eq!(nth_tail(data, b':', 1), Some(&b"0:{\"a\":1}"[..]));
    assert_eq!(nth_tail(data, b':', 2), Some(&b"{\"a\":1}"[..]));
    assert_eq!(nth_tail(data, b':', 4), None);
    assert_eq!(nth_tail(b"Os:", b':', 1), Some(&b""[..]));
}

#[test]
fn byte_sized_numbers_parse_as_in_std() {
    for text in [
        "", "0", "7", "007", "255", "256", "300", "+5", "+", "-1", "-0", "1a", " 1", "1 ", "++1",
        "99999999999999999999", "0255", "+255", "+256", "a",
    ] {
        assert_eq!(parse_u8(text.as_bytes()), text.parse::<u8>().ok(), "{:?}", text);
    }
}

#[test]
fn every_byte_value_reads_back() {
    for n in 0..=255u8 {
        assert_eq!(parse_u8(decimal(n as u64).as_bytes()), Some(n));
    }
}

#[test]
fn prefixes_and_equality() {
    assert!(starts_with(b"ABG:xyz", b"ABG:"));
    assert!(!starts_with(b"ABG", b"ABG:"));
    assert!(starts_with(b"x", b""));
    assert!(same_bytes(b"!ready", b"!ready"));
    assert!(!same_bytes(b"!ready", b"!Ready"));
    assert!(!same_bytes(b"a", b"ab"));
}

#[test]
fn number_texts_are_those_that_parse_as_floats() {
    for text in [
        "", "0", "1", "-1", "+1", "1.5", "1.", ".5", ".", "-.5", "+.", "1e5", "1E5", "1e+5",
        "1e-5", "1e", "1e+", "e5", "1.e5", ".e5", "1.5e10", "inf", "-inf", "+inf", "INF",
        "Infinity", "infinity", "-INFINITY", "infinit", "nan", "NaN", "-nan", "nana", "1.2.3",
        "1 ", " 1", "1_0", "0x10", "1f", "--1", "+-1", "1e5.5", "12345678901234567890",
        "0.000001", "1e400", "-", "+", "1ee5", "1.5E-3", "in", "i", "n",
    ] {
        assert_eq!(
            number_text(text.as_bytes()),
            text.parse::<f32>().is_ok(),
            "{:?}",
            text
        );
    }
}
