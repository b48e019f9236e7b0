//! The tagged numeric value used by the expression evaluator.
//!
//! A value is a type tag plus one 64-bit payload slot. The payload holds the
//! number in hundredths of a unit (fixed-point with two decimal digits), so
//! the same slot serves both projections: the integer projection truncates
//! the fraction away, and the two-decimal rendering prints it. Arithmetic on
//! payloads saturates at the `i64` range, and divisions truncate toward zero;
//! a division by zero saturates to the far end of the range in the sign of
//! the dividend. These rules form the explicit value table that every
//! operation of this module is specified against.

use vstd::arithmetic::div_mod::{
    lemma_div_nonincreasing, lemma_div_pos_is_pos,
};
use vstd::arithmetic::power2::{lemma2_to64, lemma2_to64_rest, lemma_pow2_adds, lemma_pow2_strictly_increases, pow2};
use vstd::math::abs;
use vstd::prelude::*;

verus! {

/// The fixed, closed set of type tags, in promotion order: a binary
/// operation is tagged with the *wider* of its operand tags, where wider
/// means later in this list.
#[derive(Clone, Copy, Debug, PartialEq, Eq, Structural)]
pub enum Ty {
    BOOL,
    I32,
    U32,
    I64,
    U64,
    F32,
    F64,
    ISIZE,
    USIZE,
}

/// Position of a tag in the promotion order.
pub open spec fn ty_rank(t: Ty) -> int {
    match t {
        Ty::BOOL => 0,
        Ty::I32 => 1,
        Ty::U32 => 2,
        Ty::I64 => 3,
        Ty::U64 => 4,
        Ty::F32 => 5,
        Ty::F64 => 6,
        Ty::ISIZE => 7,
        Ty::USIZE => 8,
    }
}

/// The wider of two tags: the one later in the promotion order.
pub open spec fn wider_ty(a: Ty, b: Ty) -> Ty {
    if ty_rank(b) > ty_rank(a) {
        b
    } else {
        a
    }
}

impl Ty {
    /// Position of this tag in the promotion order.
    pub fn rank(self) -> (r: u8)
        ensures
            r as int == ty_rank(self),
    {
        match self {
            Ty::BOOL => 0,
            Ty::I32 => 1,
            Ty::U32 => 2,
            Ty::I64 => 3,
            Ty::U64 => 4,
            Ty::F32 => 5,
            Ty::F64 => 6,
            Ty::ISIZE => 7,
            Ty::USIZE => 8,
        }
    }

    /// The display name of this tag.
    pub fn name(self) -> (r: &'static str)
        ensures
            r@ == ty_name(self),
    {
        proof {
            reveal_strlit("bool");
            reveal_strlit("i32");
            reveal_strlit("u32");
            reveal_strlit("i64");
            reveal_strlit("u64");
            reveal_strlit("f32");
            reveal_strlit("f64");
            reveal_strlit("isize");
            reveal_strlit("usize");
            assert(("bool")@ =~= ty_name(Ty::BOOL));
            assert(("i32")@ =~= ty_name(Ty::I32));
            assert(("u32")@ =~= ty_name(Ty::U32));
            assert(("i64")@ =~= ty_name(Ty::I64));
            assert(("u64")@ =~= ty_name(Ty::U64));
            assert(("f32")@ =~= ty_name(Ty::F32));
            assert(("f64")@ =~= ty_name(Ty::F64));
            assert(("isize")@ =~= ty_name(Ty::ISIZE));
            assert(("usize")@ =~= ty_name(Ty::USIZE));
        }
        match self {
            Ty::BOOL => "bool",
            Ty::I32 => "i32",
            Ty::U32 => "u32",
            Ty::I64 => "i64",
            Ty::U64 => "u64",
            Ty::F32 => "f32",
            Ty::F64 => "f64",
            Ty::ISIZE => "isize",
            Ty::USIZE => "usize",
        }
    }

    /// The wider of `self` and `other` under the promotion order.
    pub fn wider(self, other: Ty) -> (r: Ty)
        ensures
            r == wider_ty(self, other),
    {
        if other.rank() > self.rank() {
            other
        } else {
            self
        }
    }
}

/// The vocabulary of type names that `Ty::from_str` accepts, in the order
/// ties between suggestions are broken.
pub open spec fn vtype_seqs() -> Seq<Seq<char>> {
    seq![
        ty_name(Ty::I32),
        ty_name(Ty::U32),
        ty_name(Ty::I64),
        ty_name(Ty::U64),
        ty_name(Ty::F32),
        ty_name(Ty::F64),
        ty_name(Ty::ISIZE),
        ty_name(Ty::USIZE),
        ty_name(Ty::BOOL),
    ]
}

/// The tag a name denotes, if any.
pub open spec fn spec_ty_of_name(s: Seq<char>) -> Option<Ty> {
    if s == ty_name(Ty::BOOL) {
        Some(Ty::BOOL)
    } else if s == ty_name(Ty::I32) {
        Some(Ty::I32)
    } else if s == ty_name(Ty::U32) {
        Some(Ty::U32)
    } else if s == ty_name(Ty::I64) {
        Some(Ty::I64)
    } else if s == ty_name(Ty::U64) {
        Some(Ty::U64)
    } else if s == ty_name(Ty::F32) {
        Some(Ty::F32)
    } else if s == ty_name(Ty::F64) {
        Some(Ty::F64)
    } else if s == ty_name(Ty::ISIZE) {
        Some(Ty::ISIZE)
    } else if s == ty_name(Ty::USIZE) {
        Some(Ty::USIZE)
    } else {
        None
    }
}

/// A nearest name of the vocabulary at distance `d` from `s`, with ties
/// broken by first occurrence.
pub open spec fn is_best_suggestion(s: Seq<char>, d: nat, w: Seq<char>) -> bool {
    exists|k: int|
        0 <= k < vtype_seqs().len() && w == vtype_seqs()[k] && d == crate::lev::edit_dist(
            s,
            vtype_seqs()[k],
        ) && (forall|h: int|
            0 <= h < vtype_seqs().len() ==> #[trigger] crate::lev::edit_dist(
                s,
                vtype_seqs()[h],
            ) >= d) && (forall|h: int|
            0 <= h < k ==> #[trigger] crate::lev::edit_dist(s, vtype_seqs()[h]) > d)
}

/// The message reported for an unknown name `s` with suggestion `w`.
pub open spec fn suggest_msg(s: Seq<char>, w: Seq<char>) -> Seq<char> {
    ("Unknown Types: '")@ + s + ("'\ndid you mean: '")@ + w + ("'?")@
}

/// The vocabulary of type names, as the suggester takes it.
pub fn vtype_names() -> (r: Vec<&'static str>)
    ensures
        r@.len() == vtype_seqs().len(),
        forall|k: int| 0 <= k < r@.len() ==> #[trigger] r@[k]@ == vtype_seqs()[k],
        forall|k: int| 0 <= k < r@.len() ==> #[trigger] r@[k]@.len() <= 5,
{
    let names = vec!["i32", "u32", "i64", "u64", "f32", "f64", "isize", "usize", "bool"];
    proof {
        reveal_strlit("bool");
        reveal_strlit("i32");
        reveal_strlit("u32");
        reveal_strlit("i64");
        reveal_strlit("u64");
        reveal_strlit("f32");
        reveal_strlit("f64");
        reveal_strlit("isize");
        reveal_strlit("usize");
        assert(("i32")@ =~= vtype_seqs()[0]);
        assert(("u32")@ =~= vtype_seqs()[1]);
        assert(("i64")@ =~= vtype_seqs()[2]);
        assert(("u64")@ =~= vtype_seqs()[3]);
        assert(("f32")@ =~= vtype_seqs()[4]);
        assert(("f64")@ =~= vtype_seqs()[5]);
        assert(("isize")@ =~= vtype_seqs()[6]);
        assert(("usize")@ =~= vtype_seqs()[7]);
        assert(("bool")@ =~= vtype_seqs()[8]);
    }
    names
}

impl Ty {
    /// The tag a name denotes; an unknown name is a value error whose
    /// message carries the nearest valid name as a suggestion.
    pub fn from_str(s: &str) -> (r: Result<Ty, crate::error::Error>)
        requires
            s@.len() + 8 < usize::MAX,
        ensures
            match spec_ty_of_name(s@) {
                Some(t) => r == Ok::<Ty, crate::error::Error>(t),
                None => r matches Err(e) && e matches crate::error::Error::ParsingError(m) && (
                exists|w: Seq<char>, d: nat|
                    is_best_suggestion(s@, d, w) && m@ == suggest_msg(s@, w)),
            },
    {
        proof {
            reveal_strlit("bool");
            reveal_strlit("i32");
            reveal_strlit("u32");
            reveal_strlit("i64");
            reveal_strlit("u64");
            reveal_strlit("f32");
            reveal_strlit("f64");
            reveal_strlit("isize");
            reveal_strlit("usize");
            assert(("bool")@ =~= ty_name(Ty::BOOL));
            assert(("i32")@ =~= ty_name(Ty::I32));
            assert(("u32")@ =~= ty_name(Ty::U32));
            assert(("i64")@ =~= ty_name(Ty::I64));
            assert(("u64")@ =~= ty_name(Ty::U64));
            assert(("f32")@ =~= ty_name(Ty::F32));
            assert(("f64")@ =~= ty_name(Ty::F64));
            assert(("isize")@ =~= ty_name(Ty::ISIZE));
            assert(("usize")@ =~= ty_name(Ty::USIZE));
        }
        if crate::util::str_eq(s, "bool") {
            Ok(Ty::BOOL)
        } else if crate::util::str_eq(s, "i32") {
            Ok(Ty::I32)
        } else if crate::util::str_eq(s, "u32") {
            Ok(Ty::U32)
        } else if crate::util::str_eq(s, "i64") {
            Ok(Ty::I64)
        } else if crate::util::str_eq(s, "u64") {
            Ok(Ty::U64)
        } else if crate::util::str_eq(s, "f32") {
            Ok(Ty::F32)
        } else if crate::util::str_eq(s, "f64") {
            Ok(Ty::F64)
        } else if crate::util::str_eq(s, "isize") {
            Ok(Ty::ISIZE)
        } else if crate::util::str_eq(s, "usize") {
            Ok(Ty::USIZE)
        } else {
            let names = vtype_names();
            let (d, w) = crate::lev::suggest_word(s, names.as_slice());
            let mut msg = String::new();
            proof {
                reveal_strlit("Unknown Types: '");
                reveal_strlit("'\ndid you mean: '");
                reveal_strlit("'?");
            }
            msg.append("Unknown Types: '");
            msg.append(s);
            msg.append("'\ndid you mean: '");
            msg.append(w.as_str());
            msg.append("'?");
            proof {
                assert(msg@ =~= suggest_msg(s@, w@));
                let k = choose|k: int|
                    0 <= k < names@.len() && w@ == names@[k]@ && d as nat
                        == crate::lev::edit_dist(s@, names@[k]@) && (forall|h: int|
                        0 <= h < k ==> #[trigger] crate::lev::edit_dist(s@, names@[h]@) > (
                        d as nat));
                assert(names@[k]@ == vtype_seqs()[k]);
                assert forall|h: int| 0 <= h < vtype_seqs().len() implies #[trigger] crate::lev::edit_dist(
                    s@,
                    vtype_seqs()[h],
                ) >= d as nat by {
                    assert(names@[h]@ == vtype_seqs()[h]);
                    assert(crate::lev::edit_dist(s@, names@[h]@) >= d as nat);
                }
                assert forall|h: int| 0 <= h < k implies #[trigger] crate::lev::edit_dist(
                    s@,
                    vtype_seqs()[h],
                ) > d as nat by {
                    assert(names@[h]@ == vtype_seqs()[h]);
                    assert(crate::lev::edit_dist(s@, names@[h]@) > d as nat);
                }
                assert(0 <= k < vtype_seqs().len() && w@ == vtype_seqs()[k] && d as nat
                    == crate::lev::edit_dist(s@, vtype_seqs()[k]));
                assert(is_best_suggestion(s@, d as nat, w@));
            }
            Err(crate::error::Error::ParsingError(msg))
        }
    }
}

/// Clamp a mathematical integer into the `i64` range.
pub open spec fn sat64(x: int) -> int {
    if x > i64::MAX as int {
        i64::MAX as int
    } else if x < i64::MIN as int {
        i64::MIN as int
    } else {
        x
    }
}

/// Division truncating toward zero (the divisor must not be zero).
pub open spec fn tdiv(x: int, d: int) -> int {
    if x == 0 {
        0
    } else if x > 0 && d > 0 {
        x / d
    } else if x < 0 && d < 0 {
        (x * -1) / (d * -1)
    } else if x < 0 {
        ((x * -1) / d) * -1
    } else {
        (x / (d * -1)) * -1
    }
}

/// Remainder of truncating division: same sign as the dividend.
pub open spec fn trem(x: int, d: int) -> int {
    if x == 0 {
        0
    } else if x > 0 && d > 0 {
        x % d
    } else if x < 0 && d < 0 {
        ((x * -1) % (d * -1)) * -1
    } else if x < 0 {
        ((x * -1) % d) * -1
    } else {
        x % (d * -1)
    }
}

/// Integer projection of a payload: whole units, fraction truncated.
pub open spec fn iproj(v: int) -> int {
    tdiv(v, 100)
}

/// Truncating division never grows the magnitude of the dividend.
proof fn lemma_tdiv_bound(x: int, d: int)
    requires
        d != 0,
    ensures
        -abs(x) <= tdiv(x, d) <= abs(x),
{
    if x > 0 && d > 0 {
        lemma_div_pos_is_pos(x, d);
        lemma_div_nonincreasing(x, d);
    } else if x < 0 && d < 0 {
        lemma_div_pos_is_pos(x * -1, d * -1);
        lemma_div_nonincreasing(x * -1, d * -1);
    } else if x < 0 {
        lemma_div_pos_is_pos(x * -1, d);
        lemma_div_nonincreasing(x * -1, d);
    } else if x > 0 {
        lemma_div_pos_is_pos(x, d * -1);
        lemma_div_nonincreasing(x, d * -1);
    }
}

/// Scale whole units back into a payload, clamped to the slot range.
pub open spec fn scale100(x: int) -> int {
    sat64(x * 100)
}

/// Payload of a sum: saturating addition.
pub open spec fn add_val(a: int, b: int) -> int {
    sat64(a + b)
}

/// Payload of a difference: saturating subtraction.
pub open spec fn sub_val(a: int, b: int) -> int {
    sat64(a - b)
}

/// Payload of a product: the product of two fixed-point numbers carries a
/// factor of 100 too many, which truncating division removes.
pub open spec fn mul_val(a: int, b: int) -> int {
    sat64(tdiv(a * b, 100))
}

/// Payload of a quotient: the dividend is pre-scaled so the fixed-point
/// factor survives the division. Dividing by zero saturates to the far end
/// of the range in the sign of the dividend (zero over zero is zero).
pub open spec fn div_val(a: int, b: int) -> int {
    if b == 0 {
        if a > 0 {
            i64::MAX as int
        } else if a < 0 {
            i64::MIN as int
        } else {
            0
        }
    } else {
        sat64(tdiv(a * 100, b))
    }
}

/// Payload of a remainder: the remainder of the payloads is the scaled
/// remainder of the numbers, with the sign of the dividend. A zero divisor
/// yields zero.
pub open spec fn rem_val(a: int, b: int) -> int {
    if b == 0 {
        0
    } else {
        trem(a, b)
    }
}

/// Shift distance drawn from a payload: its integer projection, reduced to
/// the width of the slot.
pub open spec fn shamt(b: int) -> nat {
    (iproj(b) % 64) as nat
}

/// Payload of a left shift: the integer projections are shifted as numbers
/// (a multiplication by a power of two), then scaled back to a payload; both
/// steps saturate.
pub open spec fn shl_val(a: int, b: int) -> int {
    scale100(sat64(iproj(a) * pow2(shamt(b))))
}

/// Payload of a right shift: truncating division of the integer projection
/// by a power of two, scaled back to a payload.
pub open spec fn shr_val(a: int, b: int) -> int {
    scale100(sat64(tdiv(iproj(a), pow2(shamt(b)) as int)))
}

/// Payload of a bitwise and over the integer projections.
pub open spec fn band_val(a: int, b: int) -> int {
    scale100(((iproj(a) as i64) & (iproj(b) as i64)) as int)
}

/// Payload of a bitwise or over the integer projections.
pub open spec fn bor_val(a: int, b: int) -> int {
    scale100(((iproj(a) as i64) | (iproj(b) as i64)) as int)
}

/// Payload of a bitwise xor over the integer projections.
pub open spec fn bxor_val(a: int, b: int) -> int {
    scale100(((iproj(a) as i64) ^ (iproj(b) as i64)) as int)
}

/// A tagged numeric value: one payload slot in hundredths plus a type tag.
/// The tag drives promotion and formatting only; the payload alone carries
/// the number.
#[derive(Clone, Copy, Debug, PartialEq, Eq, Structural)]
pub struct NumberType {
    /// The type tag recorded at construction or chosen by promotion.
    pub ty: Ty,
    /// The payload, in hundredths of a unit.
    pub val: i64,
}

impl NumberType {
    /// Build a value from a whole number of units; the payload saturates if
    /// the scaled number leaves the slot range.
    pub fn new(ty: Ty, num: i64) -> (r: Self)
        ensures
            r.ty == ty,
            r.val as int == scale100(num as int),
    {
        let val = match num.checked_mul(100) {
            Some(v) => v,
            None => {
                if num > 0 {
                    i64::MAX
                } else {
                    i64::MIN
                }
            },
        };
        NumberType { ty, val }
    }

    /// Build a value directly from a payload already in hundredths.
    pub fn new_scaled(ty: Ty, val: i64) -> (r: Self)
        ensures
            r.ty == ty,
            r.val == val,
    {
        NumberType { ty, val }
    }

    /// The integer projection: whole units, fraction truncated away.
    pub fn integral(&self) -> (r: i64)
        ensures
            r as int == iproj(self.val as int),
    {
        match self.val.checked_div(100) {
            Some(q) => q,
            None => 0,
        }
    }

    /// True when the payload is not zero.
    pub fn is_truthy(&self) -> (r: bool)
        ensures
            r == (self.val != 0),
    {
        self.val != 0
    }

    /// Sum, tagged with the wider operand tag.
    pub fn add(self, rhs: Self) -> (r: Self)
        ensures
            r.ty == wider_ty(self.ty, rhs.ty),
            r.val as int == add_val(self.val as int, rhs.val as int),
    {
        let s: i128 = self.val as i128 + rhs.val as i128;
        NumberType { ty: self.ty.wider(rhs.ty), val: sat_i128(s) }
    }

    /// Difference, tagged with the wider operand tag.
    pub fn sub(self, rhs: Self) -> (r: Self)
        ensures
            r.ty == wider_ty(self.ty, rhs.ty),
            r.val as int == sub_val(self.val as int, rhs.val as int),
    {
        let s: i128 = self.val as i128 - rhs.val as i128;
        NumberType { ty: self.ty.wider(rhs.ty), val: sat_i128(s) }
    }

    /// Product, tagged with the wider operand tag.
    pub fn mul(self, rhs: Self) -> (r: Self)
        ensures
            r.ty == wider_ty(self.ty, rhs.ty),
            r.val as int == mul_val(self.val as int, rhs.val as int),
    {
        let a: i128 = self.val as i128;
        let b: i128 = rhs.val as i128;
        proof {
            lemma_i64_product_fits(a as int, b as int);
            lemma_tdiv_bound(a as int * b as int, 100);
        }
        let p: i128 = a * b;
        let q: i128 = p.checked_div(100).unwrap();
        NumberType { ty: self.ty.wider(rhs.ty), val: sat_i128(q) }
    }

    /// Quotient, tagged with the wider operand tag; a zero divisor saturates
    /// in the sign of the dividend.
    pub fn div(self, rhs: Self) -> (r: Self)
        ensures
            r.ty == wider_ty(self.ty, rhs.ty),
            r.val as int == div_val(self.val as int, rhs.val as int),
    {
        let ty = self.ty.wider(rhs.ty);
        if rhs.val == 0 {
            let v: i64 = if self.val > 0 {
                i64::MAX
            } else if self.val < 0 {
                i64::MIN
            } else {
                0
            };
            NumberType { ty, val: v }
        } else {
            let p: i128 = self.val as i128 * 100;
            proof {
                lemma_tdiv_bound(p as int, rhs.val as int);
            }
            let q: i128 = p.checked_div(rhs.val as i128).unwrap();
            NumberType { ty, val: sat_i128(q) }
        }
    }

    /// Remainder with the sign of the dividend; a zero divisor yields zero.
    pub fn rem(self, rhs: Self) -> (r: Self)
        ensures
            r.ty == wider_ty(self.ty, rhs.ty),
            r.val as int == rem_val(self.val as int, rhs.val as int),
    {
        let ty = self.ty.wider(rhs.ty);
        if rhs.val == 0 {
            NumberType { ty, val: 0 }
        } else {
            let v: i64 = match self.val.checked_rem(rhs.val) {
                Some(m) => m,
                None => 0,
            };
            NumberType { ty, val: v }
        }
    }

    /// Left shift of the integer projections, scaled back to a payload.
    pub fn shl(self, rhs: Self) -> (r: Self)
        ensures
            r.ty == wider_ty(self.ty, rhs.ty),
            r.val as int == shl_val(self.val as int, rhs.val as int),
    {
        let ia: i64 = self.integral();
        let k: i64 = rhs.integral().checked_rem_euclid(64).unwrap();
        let p: i128 = pow2_i128(k);
        proof {
            lemma_i64_product_fits(ia as int, p as int);
        }
        let prod: i128 = (ia as i128) * p;
        Self::new(self.ty.wider(rhs.ty), sat_i128(prod))
    }

    /// Right shift of the integer projections, scaled back to a payload.
    pub fn shr(self, rhs: Self) -> (r: Self)
        ensures
            r.ty == wider_ty(self.ty, rhs.ty),
            r.val as int == shr_val(self.val as int, rhs.val as int),
    {
        let ia: i64 = self.integral();
        let k: i64 = rhs.integral().checked_rem_euclid(64).unwrap();
        let p: i128 = pow2_i128(k);
        proof {
            lemma_tdiv_bound(ia as int, p as int);
        }
        let q: i128 = (ia as i128).checked_div(p).unwrap();
        Self::new(self.ty.wider(rhs.ty), sat_i128(q))
    }

    /// Bitwise and of the integer projections, scaled back to a payload.
    pub fn bitand(self, rhs: Self) -> (r: Self)
        ensures
            r.ty == wider_ty(self.ty, rhs.ty),
            r.val as int == band_val(self.val as int, rhs.val as int),
    {
        Self::new(self.ty.wider(rhs.ty), self.integral() & rhs.integral())
    }

    /// Bitwise or of the integer projections, scaled back to a payload.
    pub fn bitor(self, rhs: Self) -> (r: Self)
        ensures
            r.ty == wider_ty(self.ty, rhs.ty),
            r.val as int == bor_val(self.val as int, rhs.val as int),
    {
        Self::new(self.ty.wider(rhs.ty), self.integral() | rhs.integral())
    }

    /// Bitwise xor of the integer projections, scaled back to a payload.
    pub fn bitxor(self, rhs: Self) -> (r: Self)
        ensures
            r.ty == wider_ty(self.ty, rhs.ty),
            r.val as int == bxor_val(self.val as int, rhs.val as int),
    {
        Self::new(self.ty.wider(rhs.ty), self.integral() ^ rhs.integral())
    }

    /// Numeric equality: both projections of the payload agree on it.
    pub fn cmp_eq(&self, other: &Self) -> (r: bool)
        ensures
            r == (self.val == other.val),
    {
        self.val == other.val
    }

    /// Numeric order on the payloads.
    pub fn cmp_lt(&self, other: &Self) -> (r: bool)
        ensures
            r == (self.val < other.val),
    {
        self.val < other.val
    }

    /// Render as `<projected value>: <type name>`.
    pub fn to_text(&self) -> (r: String)
        ensures
            r@ == render_text(*self),
    {
        let mut out = String::new();
        match self.ty {
            Ty::BOOL => {
                proof {
                    reveal_strlit("true");
                    reveal_strlit("false");
                    assert(("true")@ =~= seq!['t', 'r', 'u', 'e']);
                    assert(("false")@ =~= seq!['f', 'a', 'l', 's', 'e']);
                }
                if self.integral() != 0 {
                    out.append("true");
                } else {
                    out.append("false");
                }
            },
            Ty::F32 | Ty::F64 => {
                let body = payload_fixed2(self.val);
                out.append(body.as_str());
            },
            _ => {
                let body = payload_units(self.val);
                out.append(body.as_str());
            },
        }
        proof {
            reveal_strlit(": ");
            assert((": ")@ =~= seq![':', ' ']);
        }
        out.append(": ");
        out.append(self.ty.name());
        proof {
            assert(out@ =~= render_text(*self));
        }
        out
    }
}

impl Default for NumberType {
    /// The zero of the pointer-sized signed tag.
    fn default() -> (r: Self)
        ensures
            r.ty == Ty::ISIZE,
            r.val == 0,
    {
        NumberType { ty: Ty::ISIZE, val: 0 }
    }
}

/// The magnitude of a payload.
fn payload_mag(v: i64) -> (m: u64)
    ensures
        m as int == abs(v as int),
{
    if v < 0 {
        (-(v as i128)) as u64
    } else {
        v as u64
    }
}

/// Render a payload with exactly two decimal digits.
fn payload_fixed2(v: i64) -> (r: String)
    ensures
        r@ == payload_fixed2_text(v as int),
{
    let mag = payload_mag(v);
    let mut out = String::new();
    if v < 0 {
        proof {
            reveal_strlit("-");
            assert(("-")@ =~= seq!['-']);
        }
        out.append("-");
    }
    let units = u64_text(mag / 100);
    out.append(units.as_str());
    proof {
        reveal_strlit(".");
        assert((".")@ =~= seq!['.']);
    }
    out.append(".");
    out.append(digit_str((mag % 100) / 10));
    out.append(digit_str(mag % 10));
    proof {
        assert(out@ =~= payload_fixed2_text(v as int));
    }
    out
}

/// Render a payload with the fraction trimmed.
fn payload_units(v: i64) -> (r: String)
    ensures
        r@ == payload_units_text(v as int),
{
    let mag = payload_mag(v);
    let f = mag % 100;
    let mut out = String::new();
    if v < 0 {
        proof {
            reveal_strlit("-");
            assert(("-")@ =~= seq!['-']);
        }
        out.append("-");
    }
    let units = u64_text(mag / 100);
    out.append(units.as_str());
    if f != 0 {
        proof {
            reveal_strlit(".");
            assert((".")@ =~= seq!['.']);
        }
        out.append(".");
        out.append(digit_str(f / 10));
        if f % 10 != 0 {
            out.append(digit_str(f % 10));
        }
    }
    proof {
        assert(out@ =~= payload_units_text(v as int));
    }
    out
}

/// The decimal digit character for `d` (digits ten and over fall to `'9'`,
/// which no caller reaches).
pub open spec fn digit_char(d: int) -> char {
    if d == 0 {
        '0'
    } else if d == 1 {
        '1'
    } else if d == 2 {
        '2'
    } else if d == 3 {
        '3'
    } else if d == 4 {
        '4'
    } else if d == 5 {
        '5'
    } else if d == 6 {
        '6'
    } else if d == 7 {
        '7'
    } else if d == 8 {
        '8'
    } else {
        '9'
    }
}

/// The decimal digits of a nonnegative number, most significant first;
/// zero renders as no digits at all.
pub open spec fn dec_digits(n: int) -> Seq<char>
    decreases n,
{
    if n <= 0 {
        Seq::<char>::empty()
    } else {
        dec_digits(n / 10).push(digit_char(n % 10))
    }
}

/// The decimal text of a nonnegative number; zero renders as `0`.
pub open spec fn dec_text(n: int) -> Seq<char> {
    if n == 0 {
        seq!['0']
    } else {
        dec_digits(n)
    }
}

/// The decimal text of a signed number.
pub open spec fn int_text(v: int) -> Seq<char> {
    if v < 0 {
        seq!['-'] + dec_text(-v)
    } else {
        dec_text(v)
    }
}

/// The display name of a tag, as characters.
pub open spec fn ty_name(t: Ty) -> Seq<char> {
    match t {
        Ty::BOOL => seq!['b', 'o', 'o', 'l'],
        Ty::I32 => seq!['i', '3', '2'],
        Ty::U32 => seq!['u', '3', '2'],
        Ty::I64 => seq!['i', '6', '4'],
        Ty::U64 => seq!['u', '6', '4'],
        Ty::F32 => seq!['f', '3', '2'],
        Ty::F64 => seq!['f', '6', '4'],
        Ty::ISIZE => seq!['i', 's', 'i', 'z', 'e'],
        Ty::USIZE => seq!['u', 's', 'i', 'z', 'e'],
    }
}

/// A payload rendered with exactly two decimal digits, as float tags show it.
pub open spec fn payload_fixed2_text(v: int) -> Seq<char> {
    let sign = if v < 0 {
        seq!['-']
    } else {
        Seq::<char>::empty()
    };
    let mag = abs(v) as int;
    sign + dec_text(mag / 100) + seq!['.', digit_char((mag % 100) / 10), digit_char(mag % 10)]
}

/// A payload rendered with the fraction trimmed: no decimal point for a
/// whole number, one digit when the hundredths digit is zero, two otherwise.
pub open spec fn payload_units_text(v: int) -> Seq<char> {
    let sign = if v < 0 {
        seq!['-']
    } else {
        Seq::<char>::empty()
    };
    let mag = abs(v) as int;
    let f = mag % 100;
    if f == 0 {
        sign + dec_text(mag / 100)
    } else if f % 10 == 0 {
        sign + dec_text(mag / 100) + seq!['.', digit_char(f / 10)]
    } else {
        sign + dec_text(mag / 100) + seq!['.', digit_char(f / 10), digit_char(f % 10)]
    }
}

/// The display text of a value: its projection, a separator, and the tag
/// name. Boolean tags show the truth of the integer projection, float tags
/// show two decimals, and the rest trim the fraction.
pub open spec fn render_text(n: NumberType) -> Seq<char> {
    let body = match n.ty {
        Ty::BOOL => if iproj(n.val as int) != 0 {
            seq!['t', 'r', 'u', 'e']
        } else {
            seq!['f', 'a', 'l', 's', 'e']
        },
        Ty::F32 | Ty::F64 => payload_fixed2_text(n.val as int),
        _ => payload_units_text(n.val as int),
    };
    body + seq![':', ' '] + ty_name(n.ty)
}

/// One decimal digit as a string slice.
fn digit_str(d: u64) -> (r: &'static str)
    requires
        d < 10,
    ensures
        r@ == seq![digit_char(d as int)],
{
    proof {
        reveal_strlit("0");
        reveal_strlit("1");
        reveal_strlit("2");
        reveal_strlit("3");
        reveal_strlit("4");
        reveal_strlit("5");
        reveal_strlit("6");
        reveal_strlit("7");
        reveal_strlit("8");
        reveal_strlit("9");
        assert(("0")@ =~= seq![digit_char(0)]);
        assert(("1")@ =~= seq![digit_char(1)]);
        assert(("2")@ =~= seq![digit_char(2)]);
        assert(("3")@ =~= seq![digit_char(3)]);
        assert(("4")@ =~= seq![digit_char(4)]);
        assert(("5")@ =~= seq![digit_char(5)]);
        assert(("6")@ =~= seq![digit_char(6)]);
        assert(("7")@ =~= seq![digit_char(7)]);
        assert(("8")@ =~= seq![digit_char(8)]);
        assert(("9")@ =~= seq![digit_char(9)]);
    }
    match d {
        0 => "0",
        1 => "1",
        2 => "2",
        3 => "3",
        4 => "4",
        5 => "5",
        6 => "6",
        7 => "7",
        8 => "8",
        _ => "9",
    }
}

/// Render a nonnegative number in decimal.
pub fn u64_text(n: u64) -> (r: String)
    ensures
        r@ == dec_text(n as int),
{
    let mut out = String::new();
    if n == 0 {
        out.append(digit_str(0));
        proof {
            assert(out@ =~= dec_text(0));
        }
        return out;
    }
    let mut digs: Vec<u64> = Vec::new();
    let mut m: u64 = n;
    while m > 0
        invariant
            dec_digits(n as int) =~= dec_digits(m as int) + digs@.reverse().map_values(
                |d: u64| digit_char(d as int),
            ),
            forall|k: int| 0 <= k < digs@.len() ==> digs@[k] < 10,
        decreases m,
    {
        let ghost pre = digs@;
        let d = m % 10;
        digs.push(d);
        m = m / 10;
        proof {
            assert(digs@.reverse() =~= seq![d] + pre.reverse());
            assert(digs@.reverse().map_values(|x: u64| digit_char(x as int)) =~= seq![
                digit_char(d as int),
            ] + pre.reverse().map_values(|x: u64| digit_char(x as int)));
            assert(dec_digits(n as int) =~= dec_digits(m as int) + digs@.reverse().map_values(
                |x: u64| digit_char(x as int),
            ));
        }
    }
    let mut k: usize = digs.len();
    proof {
        assert(digs@.skip(k as int).reverse().map_values(|x: u64| digit_char(x as int))
            =~= Seq::<char>::empty());
        assert(out@ =~= digs@.skip(k as int).reverse().map_values(
            |x: u64| digit_char(x as int),
        ));
    }
    while k > 0
        invariant
            k <= digs@.len(),
            forall|j: int| 0 <= j < digs@.len() ==> digs@[j] < 10,
            out@ =~= digs@.skip(k as int).reverse().map_values(|x: u64| digit_char(x as int)),
        decreases k,
    {
        let ghost pre = out@;
        out.append(digit_str(digs[k - 1]));
        k = k - 1;
        proof {
            assert(digs@.skip(k as int).reverse() =~= digs@.skip(k as int + 1).reverse().push(
                digs@[k as int],
            ));
            assert(out@ =~= digs@.skip(k as int).reverse().map_values(
                |x: u64| digit_char(x as int),
            ));
        }
    }
    proof {
        assert(digs@.skip(0).reverse().map_values(|x: u64| digit_char(x as int)) =~= dec_digits(
            n as int,
        ));
        assert(out@ =~= dec_text(n as int));
    }
    out
}

/// Render an unsigned 32-bit number in decimal.
pub fn u32_text(n: u32) -> (r: String)
    ensures
        r@ == dec_text(n as int),
{
    u64_text(n as u64)
}

/// Render a signed number in decimal.
pub fn i64_text(v: i64) -> (r: String)
    ensures
        r@ == int_text(v as int),
{
    if v >= 0 {
        u64_text(v as u64)
    } else {
        let m: u64 = ((-(v as i128)) as u64);
        let mut out = String::new();
        proof {
            reveal_strlit("-");
        }
        out.append("-");
        let digits = u64_text(m);
        out.append(digits.as_str());
        proof {
            assert(("-")@ =~= seq!['-']);
            assert(out@ =~= int_text(v as int));
        }
        out
    }
}

/// Clamp a wide intermediate into the payload slot.
fn sat_i128(x: i128) -> (r: i64)
    ensures
        r as int == sat64(x as int),
{
    if x > i64::MAX as i128 {
        i64::MAX
    } else if x < i64::MIN as i128 {
        i64::MIN
    } else {
        x as i64
    }
}

/// A product of two payload-sized factors always fits the wide intermediate.
proof fn lemma_i64_product_fits(a: int, b: int)
    requires
        -0x8000_0000_0000_0000 <= a <= 0x8000_0000_0000_0000,
        -0x8000_0000_0000_0000 <= b <= 0x8000_0000_0000_0000,
    ensures
        -0x4000_0000_0000_0000_0000_0000_0000_0000 <= a * b
            <= 0x4000_0000_0000_0000_0000_0000_0000_0000,
{
    assert(-0x4000_0000_0000_0000_0000_0000_0000_0000 <= a * b
        <= 0x4000_0000_0000_0000_0000_0000_0000_0000) by (nonlinear_arith)
        requires
            -0x8000_0000_0000_0000 <= a <= 0x8000_0000_0000_0000,
            -0x8000_0000_0000_0000 <= b <= 0x8000_0000_0000_0000,
    ;
}

/// Power of two as a wide intermediate, for shift distances within the slot.
fn pow2_i128(k: i64) -> (p: i128)
    requires
        0 <= k < 64,
    ensures
        p as int == pow2(k as nat) as int,
        1 <= p <= 0x8000_0000_0000_0000,
{
    proof {
        lemma2_to64();
    }
    let mut p: i128 = 1;
    let mut j: i64 = 0;
    while j < k
        invariant
            0 <= j <= k < 64,
            p as int == pow2(j as nat) as int,
        decreases k - j,
    {
        proof {
            lemma_pow2_adds(j as nat, 1);
            lemma_pow2_strictly_increases(j as nat, 63);
            lemma2_to64();
            lemma2_to64_rest();
        }
        p = p * 2;
        j = j + 1;
    }
    proof {
        if (k as nat) < 63 {
            lemma_pow2_strictly_increases(k as nat, 63);
        }
        lemma2_to64_rest();
    }
    p
}

} // verus!
