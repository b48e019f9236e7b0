//! Tests of the tagged numeric value: promotion, the payload table, the
//! projections and the rendering.

use rscalc::error::Error;
use rscalc::value::{NumberType, Ty};

#[test]
fn test_value_type() {
    let lhs = NumberType::new(Ty::F64, 138);
    let rhs = NumberType::new(Ty::F64, 69);
    let res = lhs.mul(rhs);
    assert_eq!(res.integral(), 9522);
}

#[test]
fn promotion_takes_the_wider_tag() {
    let a = NumberType::new(Ty::I32, 5);
    let b = NumberType::new(Ty::F64, 2);
    assert_eq!(a.add(b).ty, Ty::F64);
    assert_eq!(b.add(a).ty, Ty::F64);
    assert_eq!(a.add(b).integral(), 7);
    assert_eq!(NumberType::new(Ty::USIZE, 1).add(NumberType::new(Ty::BOOL, 1)).ty, Ty::USIZE);
}

#[test]
fn payload_table_divides_with_two_decimals() {
    let a = NumberType::new(Ty::F64, 7);
    let b = NumberType::new(Ty::F64, 2);
    assert_eq!(a.div(b).to_text(), "3.50: f64");
    let c = NumberType::new(Ty::F64, 1);
    let d = NumberType::new(Ty::F64, 3);
    assert_eq!(c.div(d).to_text(), "0.33: f64");
}

#[test]
fn division_by_zero_saturates() {
    let one = NumberType::new(Ty::F64, 1);
    let zero = NumberType::new(Ty::F64, 0);
    assert_eq!(one.div(zero).val, i64::MAX);
    let minus = NumberType::new(Ty::F64, -1);
    assert_eq!(minus.div(zero).val, i64::MIN);
    assert_eq!(zero.div(zero).val, 0);
    assert_eq!(one.rem(zero).val, 0);
}

#[test]
fn remainder_keeps_the_dividend_sign() {
    let a = NumberType::new(Ty::F64, 7);
    let b = NumberType::new(Ty::F64, 3);
    assert_eq!(a.rem(b).integral(), 1);
    let c = NumberType::new(Ty::F64, -7);
    assert_eq!(c.rem(b).integral(), -1);
}

#[test]
fn shifts_and_bitwise_project_integers() {
    let one = NumberType::new(Ty::F64, 1);
    let three = NumberType::new(Ty::F64, 3);
    assert_eq!(one.shl(three).integral(), 8);
    let sixteen = NumberType::new(Ty::F64, 16);
    let two = NumberType::new(Ty::F64, 2);
    assert_eq!(sixteen.shr(two).integral(), 4);
    let six = NumberType::new(Ty::F64, 6);
    assert_eq!(six.bitand(three).integral(), 2);
    assert_eq!(six.bitor(three).integral(), 7);
    assert_eq!(six.bitxor(three).integral(), 5);
}

#[test]
fn projections_truncate_toward_zero() {
    assert_eq!(NumberType::new_scaled(Ty::F64, 150).integral(), 1);
    assert_eq!(NumberType::new_scaled(Ty::F64, -150).integral(), -1);
    assert_eq!(NumberType::new_scaled(Ty::F64, 99).integral(), 0);
}

#[test]
fn truthiness_is_a_nonzero_payload() {
    assert!(NumberType::new_scaled(Ty::F64, 50).is_truthy());
    assert!(!NumberType::new(Ty::F64, 0).is_truthy());
}

#[test]
fn rendering_follows_the_tag() {
    assert_eq!(NumberType::new_scaled(Ty::I64, 150).to_text(), "1.5: i64");
    assert_eq!(NumberType::new(Ty::U32, 2).to_text(), "2: u32");
    assert_eq!(NumberType::new_scaled(Ty::U32, 155).to_text(), "1.55: u32");
    assert_eq!(NumberType::new(Ty::F64, -3).to_text(), "-3.00: f64");
    assert_eq!(NumberType::new(Ty::BOOL, 1).to_text(), "true: bool");
    assert_eq!(NumberType::new(Ty::BOOL, 0).to_text(), "false: bool");
    assert_eq!(NumberType::new(Ty::F32, 0).to_text(), "0.00: f32");
}

#[test]
fn saturation_clamps_the_payload() {
    let big = NumberType::new_scaled(Ty::F64, i64::MAX);
    assert_eq!(big.add(NumberType::new(Ty::F64, 1)).val, i64::MAX);
    let small = NumberType::new_scaled(Ty::F64, i64::MIN);
    assert_eq!(small.sub(NumberType::new(Ty::F64, 1)).val, i64::MIN);
    assert_eq!(NumberType::new(Ty::F64, i64::MAX).val, i64::MAX);
}

#[test]
fn type_names_parse_back() {
    assert_eq!(Ty::from_str("bool"), Ok(Ty::BOOL));
    assert_eq!(Ty::from_str("i32"), Ok(Ty::I32));
    assert_eq!(Ty::from_str("u32"), Ok(Ty::U32));
    assert_eq!(Ty::from_str("i64"), Ok(Ty::I64));
    assert_eq!(Ty::from_str("u64"), Ok(Ty::U64));
    assert_eq!(Ty::from_str("f32"), Ok(Ty::F32));
    assert_eq!(Ty::from_str("f64"), Ok(Ty::F64));
    assert_eq!(Ty::from_str("isize"), Ok(Ty::ISIZE));
    assert_eq!(Ty::from_str("usize"), Ok(Ty::USIZE));
}

#[test]
fn unknown_type_name_suggests_the_nearest() {
    match Ty::from_str("usiz") {
        Err(Error::ParsingError(m)) => {
            assert_eq!(m, "Unknown Types: 'usiz'\ndid you mean: 'usize'?");
        },
        other => panic!("expected a value error, got {:?}", other),
    }
}

#[test]
fn tag_names_render() {
    assert_eq!(Ty::F64.name(), "f64");
    assert_eq!(Ty::BOOL.name(), "bool");
    assert_eq!(Ty::USIZE.name(), "usize");
}
