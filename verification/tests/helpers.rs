//! Tests of the standalone helpers: edit distance, suggestions, character
//! utilities, locations and lexer errors.

use rscalc::lexer::error::{LexError, LexErrorKind};
use rscalc::location::Loc;
use rscalc::util;
use rscalc::{lev, suggest_word};

#[test]
fn test_lev() {
    let result = lev("levenshtein", "lefenshdeen");
    assert_eq!(result, 3);

    let result = lev("kitten", "sitten");
    assert_eq!(result, 1);

    let result = lev("kitten", "kitten");
    assert_eq!(result, 0);
}

#[test]
fn lev_degenerate_cases() {
    assert_eq!(lev("", ""), 0);
    assert_eq!(lev("", "abc"), 3);
    assert_eq!(lev("abc", ""), 3);
    assert_eq!(lev("abc", "abd"), 1);
}

#[test]
fn suggestion_takes_first_of_equals() {
    let words = ["kitten", "mitten", "sitting"];
    let (d, w) = suggest_word("sitten", &words);
    assert_eq!(d, 1);
    assert_eq!(w, "kitten");
}

#[test]
fn suggestion_prefers_the_nearest() {
    let words = ["alpha", "beta", "gamma"];
    let (d, w) = suggest_word("beta", &words);
    assert_eq!(d, 0);
    assert_eq!(w, "beta");
}

#[test]
fn hex_digits_convert() {
    assert_eq!(util::from_digit(b'7'), Some(7));
    assert_eq!(util::from_digit(b'a'), None);
    assert!(util::is_digit(b'0'));
    assert!(!util::is_digit(b'x'));
    assert_eq!(util::from_hex_digit(b'a'), Some(10));
    assert_eq!(util::from_hex_digit(b'F'), Some(15));
    assert_eq!(util::from_hex_digit(b'g'), None);
    assert!(util::is_hex_digit(b'c'));
    assert!(!util::is_hex_digit(b'G'));
    assert!(util::is_alpha(b'_'));
    assert!(!util::is_alpha(b'1'));
    assert!(util::is_space(b' '));
    assert!(util::is_newline(b'\n'));
    assert!(util::is_ident(&'q'));
    assert!(!util::is_ident(&'-'));
}

#[test]
fn hex_integers_parse() {
    assert_eq!(util::parse_hex_integer("0xff").unwrap(), 255);
    assert_eq!(util::parse_hex_integer("0Xff").unwrap(), 255);
    assert_eq!(util::parse_hex_integer("0xdeadbeef").unwrap(), 0xdeadbeef);
    assert_eq!(
        util::parse_hex_integer("0xffffffffffffffff").unwrap(),
        u64::MAX
    );
    assert!(util::parse_hex_integer("ff").is_err());
    assert!(util::parse_hex_integer("0x").is_err());
    assert!(util::parse_hex_integer("0xgg").is_err());
    assert!(util::parse_hex_integer("0x10000000000000000").is_err());
}

#[test]
fn text_rendering_of_numbers() {
    assert_eq!(rscalc::value::u64_text(0), "0");
    assert_eq!(rscalc::value::u64_text(7), "7");
    assert_eq!(rscalc::value::u64_text(120), "120");
    assert_eq!(rscalc::value::u64_text(u64::MAX), "18446744073709551615");
    assert_eq!(rscalc::value::i64_text(-42), "-42");
    assert_eq!(rscalc::value::i64_text(i64::MIN), "-9223372036854775808");
    assert_eq!(rscalc::value::u32_text(31), "31");
}

#[test]
fn locations_track_lines_and_columns() {
    let mut l = Loc::new(2, 5);
    assert_eq!(l.line(), 2);
    assert_eq!(l.col(), 5);
    l.inc_col();
    assert_eq!(l.col(), 6);
    l.inc_line();
    assert_eq!(l.line(), 3);
    l.set_col(0);
    l.set_line(9);
    assert_eq!((l.line(), l.col()), (9, 0));
    assert!(l.source().is_none());
    let l = l.set_source("input".to_string());
    assert_eq!(l.source().unwrap(), &"input".to_string());
    assert_eq!(l.to_text(), "input:9:0");
    assert_eq!(Loc::default(), Loc::new(0, 0));
}

#[test]
fn lexer_errors_carry_kind_and_place() {
    let loc = Loc::new(1, 4);
    let e = LexError::new(LexErrorKind::HexDigitExpected, loc.clone());
    assert_eq!(e.kind, LexErrorKind::HexDigitExpected);
    assert_eq!(e.loc, loc);
    let e = e.set_loc(Loc::new(2, 0));
    assert_eq!(e.loc, Loc::new(2, 0));
    let e = LexError::unfinished_short_string('"', loc.clone());
    assert_eq!(e.kind, LexErrorKind::UnfinishedShortString('"'));
    let e = LexError::unexpected_char('#', loc.clone());
    assert_eq!(e.kind, LexErrorKind::UnexpectedCharacter('#'));
    let e = LexError::from_kind(LexErrorKind::InvalidEscape);
    assert_eq!(e.loc, Loc::new(0, 0));
}
