use teos::encoding::{decimal_string, push_be_bytes, push_decimal};
use teos::text::{char_is_whitespace, find, parse_u64, split_once, trim};

#[test]
fn trimming_is_the_standard_one() {
    for text in [
        "",
        " ",
        "  a b  ",
        "\t\n x\r\n",
        "\u{a0}x\u{3000}",
        "\u{2003}y \u{85}",
        "no space",
        " \u{200b} ",
        "\u{1680}\u{2028}\u{2029}\u{202f}\u{205f}",
    ] {
        assert_eq!(trim(text), text.trim());
    }
    for code in 0..0x3100u32 {
        if let Some(c) = char::from_u32(code) {
            assert_eq!(char_is_whitespace(c), c.is_whitespace());
        }
    }
}

#[test]
fn finding_and_splitting() {
    assert_eq!(find("a@b@c", '@'), 1);
    assert_eq!(find("abc", '@'), 3);
    assert_eq!(find("", '@'), 0);
    assert_eq!(find("é@", '@'), 1);
    assert_eq!(split_once("a@b@c", '@'), ("a", Some("b@c")));
    assert_eq!(split_once("abc", '@'), ("abc", None));
    assert_eq!(split_once("abc@", '@'), ("abc", Some("")));
    assert_eq!(split_once("@", '@'), ("", Some("")));
    assert_eq!(split_once("ü:x", ':'), ("ü", Some("x")));
}

#[test]
fn numbers_are_read_as_the_standard_library_reads_them() {
    for text in [
        "0",
        "7",
        "80",
        "+80",
        "0080",
        "18446744073709551615",
        "18446744073709551616",
        "99999999999999999999999",
        "",
        "+",
        "-1",
        "++1",
        "1+",
        " 1",
        "1 ",
        "1a",
        "١",
        "1_000",
    ] {
        assert_eq!(parse_u64(text), text.parse::<u64>().ok());
    }
}

#[test]
fn decimal_text_of_numbers() {
    for n in [0u64, 1, 9, 10, 11, 99, 100, 65535, 65536, u64::MAX] {
        assert_eq!(decimal_string(n), n.to_string());
    }
    let mut text = "n=".to_string();
    push_decimal(&mut text, 1203);
    assert_eq!(text, "n=1203");
}

#[test]
fn big_endian_bytes() {
    let mut out = vec![0xff];
    push_be_bytes(&mut out, 0x0102_0304);
    push_be_bytes(&mut out, 0);
    push_be_bytes(&mut out, u32::MAX);
    assert_eq!(out, vec![0xff, 1, 2, 3, 4, 0, 0, 0, 0, 0xff, 0xff, 0xff, 0xff]);
    assert_eq!(out[1..5], 0x0102_0304u32.to_be_bytes());
}
