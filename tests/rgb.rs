use url_parser::{from_hex, hex_primary, is_hex_digit, parse_hex, Color, ErrorKind, ParseError};

fn err(kind: ErrorKind, position: usize) -> ParseError {
    ParseError { kind, position }
}

#[test]
fn parse_hex_color_test() {
    let hex_color = "#2F14DF";
    assert_eq!(
        parse_hex(hex_color),
        Ok((
            "",
            Color {
                red: 47,
                green: 20,
                blue: 223,
            }
        ))
    )
}

#[test]
fn color_lowercase_digits_and_remainder() {
    assert_eq!(
        parse_hex("#ff00a0 rest"),
        Ok((
            " rest",
            Color {
                red: 255,
                green: 0,
                blue: 160,
            }
        ))
    );
}

#[test]
fn color_five_digits_is_incomplete() {
    assert_eq!(parse_hex("#2F14D"), Err(err(ErrorKind::IncompleteMatch, 5)));
}

#[test]
fn color_without_hash_is_unexpected() {
    assert_eq!(parse_hex("2F14DF"), Err(err(ErrorKind::UnexpectedInput, 0)));
    assert_eq!(parse_hex(""), Err(err(ErrorKind::UnexpectedInput, 0)));
}

#[test]
fn color_non_hex_digit_is_incomplete() {
    assert_eq!(parse_hex("#2G14DF"), Err(err(ErrorKind::IncompleteMatch, 1)));
    assert_eq!(parse_hex("#2F1xDF"), Err(err(ErrorKind::IncompleteMatch, 3)));
}

#[test]
fn hex_digit_classes() {
    assert!(is_hex_digit('0'));
    assert!(is_hex_digit('a'));
    assert!(is_hex_digit('F'));
    assert!(!is_hex_digit('g'));
    assert!(!is_hex_digit('G'));
    assert!(!is_hex_digit('#'));
}

#[test]
fn from_hex_values() {
    assert_eq!(from_hex("2F"), Some(47));
    assert_eq!(from_hex("ff"), Some(255));
    assert_eq!(from_hex("00"), Some(0));
    assert_eq!(from_hex("F"), None);
    assert_eq!(from_hex("FFF"), None);
    assert_eq!(from_hex("zz"), None);
}

#[test]
fn hex_primary_consumes_two_digits() {
    assert_eq!(hex_primary("14DF"), Ok(("DF", 20)));
    assert_eq!(hex_primary("1"), Err(err(ErrorKind::IncompleteMatch, 0)));
}

#[test]
fn color_decode_is_repeatable() {
    assert_eq!(parse_hex("#2F14DF"), parse_hex("#2F14DF"));
    assert_eq!(parse_hex("#2F14D"), parse_hex("#2F14D"));
}
