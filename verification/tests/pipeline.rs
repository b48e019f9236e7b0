//! End-to-end tests of the tokenize, convert, evaluate pipeline.

use rscalc::error::Error;
use rscalc::parser::parse;
use rscalc::tok::{Operator, Token};
use rscalc::value::Ty;

#[test]
fn postfix_reorders_before_division() {
    let ex = parse("(2 * 2 + 4822) / 4").unwrap();
    // Start marker and brackets are gone; multiplication and addition
    // precede the division: 2 2 * 4822 + 4 /
    assert!(matches!(ex.queue[2], Token::Op(Operator::Mul)));
    assert!(matches!(ex.queue[4], Token::Op(Operator::Add)));
    let div_at = ex
        .queue
        .iter()
        .position(|t| matches!(t, Token::Op(Operator::Div)))
        .unwrap();
    assert!(div_at > 4);
    let v = ex.eval().unwrap();
    assert_eq!(v.to_text(), "1206.50: f64");
    assert_eq!(v.integral(), 1206);
}

#[test]
fn equality_yields_boolean_one() {
    let v = parse("1 == 1").unwrap().eval().unwrap();
    assert_eq!(v.ty, Ty::BOOL);
    assert_eq!(v.integral(), 1);
    assert_eq!(v.to_text(), "true: bool");
}

#[test]
fn unbalanced_bracket_is_structural_error() {
    assert!(matches!(parse("(1 + 2"), Err(Error::MismatchParams)));
}

#[test]
fn mismatched_bracket_kinds_are_structural_errors() {
    assert!(matches!(parse("[1 + 2}"), Err(Error::MismatchParams)));
    assert!(matches!(parse("1 + 2)"), Err(Error::MismatchParams)));
}

#[test]
fn bad_token_cites_character() {
    assert!(matches!(parse("1 $ 2"), Err(Error::BadToken('$'))));
}

#[test]
fn empty_input_evaluates_to_nothing() {
    let ex = parse("").unwrap();
    assert!(ex.eval().is_none());
}

#[test]
fn bitwise_and_projects_integers() {
    let v = parse("6 & 3").unwrap().eval().unwrap();
    assert_eq!(v.integral(), 2);
}

#[test]
fn parsing_is_deterministic() {
    let a = parse("{2 * [3 + 4]} % 5 == 1").unwrap();
    let b = parse("{2 * [3 + 4]} % 5 == 1").unwrap();
    assert_eq!(a.queue, b.queue);
    assert_eq!(a.eval(), b.eval());
}

#[test]
fn arithmetic_follows_the_value_table() {
    assert_eq!(parse("1 + 2").unwrap().eval().unwrap().integral(), 3);
    assert_eq!(parse("10 % 3").unwrap().eval().unwrap().integral(), 1);
    assert_eq!(parse("7 / 2").unwrap().eval().unwrap().to_text(), "3.50: f64");
    assert_eq!(parse("2 << 3").unwrap().eval().unwrap().integral(), 16);
    assert_eq!(parse("16 >> 2").unwrap().eval().unwrap().integral(), 4);
    assert_eq!(parse("6 | 3").unwrap().eval().unwrap().integral(), 7);
    assert_eq!(parse("6 ^ 3").unwrap().eval().unwrap().integral(), 5);
}

#[test]
fn comparisons_follow_the_payload_order() {
    assert_eq!(parse("1 < 2").unwrap().eval().unwrap().to_text(), "true: bool");
    assert_eq!(parse("2 <= 2").unwrap().eval().unwrap().integral(), 1);
    assert_eq!(parse("3 >= 4").unwrap().eval().unwrap().integral(), 0);
    assert_eq!(parse("3 > 2").unwrap().eval().unwrap().integral(), 1);
    // A lone `=` stays a transient sign and takes no part in evaluation.
    assert_eq!(parse("1 = 1").unwrap().eval().unwrap().integral(), 1);
}

#[test]
fn precedence_orders_multiplication_before_addition() {
    assert_eq!(parse("2 + 3 * 4").unwrap().eval().unwrap().integral(), 14);
    assert_eq!(parse("2 * 3 + 4").unwrap().eval().unwrap().integral(), 10);
    assert_eq!(parse("1 + 2 == 3").unwrap().eval().unwrap().to_text(), "true: bool");
}

#[test]
fn segments_evaluate_independently() {
    // Each `;`-separated segment converts and evaluates on its own; the
    // overall result is the last segment's result.
    let v = parse("1 * 2; 3 * 4").unwrap().eval().unwrap();
    assert_eq!(v.integral(), 12);
    let v = parse("1 - 2;3").unwrap().eval().unwrap();
    assert_eq!(v.integral(), 3);
    assert_eq!(
        parse("1 - 2;3").unwrap().eval().unwrap().integral(),
        parse("3").unwrap().eval().unwrap().integral(),
    );
}

#[test]
fn segment_breaks_flush_pending_operators() {
    // The end marker drains the operator stack, so a segment's postfix
    // spelling is contiguous: 1 2 * | 3 4 *, never 1 2 3 * 4 *.
    let ex = parse("1 * 2; 3 * 4").unwrap();
    assert!(matches!(ex.queue[2], Token::Op(Operator::Mul)));
    assert!(matches!(ex.queue[5], Token::Op(Operator::Mul)));
    // A trailing empty segment adds nothing.
    let v = parse("1 + 1;").unwrap().eval().unwrap();
    assert_eq!(v.integral(), 2);
}

#[test]
fn unicode_whitespace_is_skipped() {
    let v = parse("1\u{00A0}+\u{2003}2\u{3000}").unwrap().eval().unwrap();
    assert_eq!(v.integral(), 3);
}

#[test]
fn literal_separators_are_discarded() {
    assert_eq!(parse("1_000 + 0").unwrap().eval().unwrap().integral(), 1000);
    assert_eq!(parse("1-000 + 0").unwrap().eval().unwrap().integral(), 1000);
}

#[test]
fn fractional_literals_keep_two_decimals() {
    assert_eq!(parse("1.5 + 0").unwrap().eval().unwrap().to_text(), "1.50: f64");
    assert_eq!(parse("1.259 + 0").unwrap().eval().unwrap().to_text(), "1.25: f64");
}

#[test]
fn malformed_literals_are_value_errors() {
    assert!(matches!(parse("1.2.3"), Err(Error::ParsingError(_))));
    assert!(matches!(
        parse("99999999999999999999999"),
        Err(Error::ParsingError(_))
    ));
}

#[test]
fn operator_without_operands_is_skipped() {
    // The documented no-op policy: an operator short of operands consumes
    // nothing, so a lone operator leaves no result at all.
    assert!(parse("+").unwrap().eval().is_none());
    // Brackets can place an operator ahead of its operands in the queue;
    // it is then skipped and the operand flows through.
    assert_eq!(parse("( * ) 2").unwrap().eval().unwrap().integral(), 2);
}

#[test]
fn shift_rewrites_are_lookback_rewrites() {
    let ex = parse("1 << 2").unwrap();
    assert!(ex.queue.iter().any(|t| matches!(t, Token::Op(Operator::Shl))));
    let ex = parse("1 >> 2").unwrap();
    assert!(ex.queue.iter().any(|t| matches!(t, Token::Op(Operator::Shr))));
}
