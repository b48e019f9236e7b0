//! Small character and number helpers shared across the crate.

use crate::error::Error;
use vstd::prelude::*;
use vstd::std_specs::iter::IteratorSpec;

verus! {

broadcast use vstd::string::axiom_spec_iter, vstd::string::next_postcondition;

/// The characters of a text, in order.
pub fn chars_of(s: &str) -> (r: Vec<char>)
    ensures
        r@ == s@,
{
    let mut it = s.chars();
    let mut out: Vec<char> = Vec::new();
    proof {
        assert(out@ + it.remaining() =~= s@);
    }
    loop
        invariant
            out@.len() <= s@.len(),
            out@ + it.remaining() == s@,
        ensures
            out@ == s@,
        decreases s@.len() - out@.len(),
    {
        let ghost pre_it = it;
        let ghost pre_out = out@;
        match it.next() {
            Some(c) => {
                out.push(c);
                proof {
                    assert(out@ + it.remaining() =~= pre_out + pre_it.remaining());
                }
            },
            None => {
                proof {
                    assert(out@ + pre_it.remaining() =~= out@);
                }
                break ;
            },
        }
    }
    out
}

/// Relies on `String: FromIterator<char>` (`collect`): the string gathered
/// from a sequence of characters holds exactly those characters, in order.
#[verifier::external_body]
pub fn string_from_chars(v: Vec<char>) -> (r: String)
    ensures
        r@ == v@,
{
    v.into_iter().collect()
}

/// Whether two texts hold the same characters.
pub fn str_eq(a: &str, b: &str) -> (r: bool)
    ensures
        r == (a@ == b@),
{
    let av = chars_of(a);
    let bv = chars_of(b);
    if av.len() != bv.len() {
        return false;
    }
    let mut i: usize = 0;
    while i < av.len()
        invariant
            av@ == a@,
            bv@ == b@,
            av@.len() == bv@.len(),
            i <= av@.len(),
            forall|k: int| 0 <= k < i ==> av@[k] == bv@[k],
        decreases av@.len() - i,
    {
        if av[i] != bv[i] {
            return false;
        }
        i = i + 1;
    }
    proof {
        assert(a@ =~= b@);
    }
    true
}

/// A line-break byte.
pub fn is_newline(c: u8) -> (r: bool)
    ensures
        r == (c == 10 || c == 13),
{
    c == 10 || c == 13
}

/// A whitespace byte.
pub fn is_space(c: u8) -> (r: bool)
    ensures
        r == (c == 9 || c == 10 || c == 12 || c == 13 || c == 32 || c == 11),
{
    matches!(c, 9 | 10 | 12 | 13 | 32 | 11)
}

/// An ASCII letter or underscore.
pub fn is_alpha(c: u8) -> (r: bool)
    ensures
        r == (97 <= c <= 122 || 65 <= c <= 90 || c == 95),
{
    matches!(c, 97..=122 | 65..=90 | 95)
}

/// A character that may appear in an identifier: an ASCII letter, a digit,
/// or an underscore.
pub fn is_ident(c: &char) -> (r: bool)
    ensures
        r == is_ident_char(*c),
{
    let u = *c as u32;
    (97 <= u && u <= 122) || (65 <= u && u <= 90) || (48 <= u && u <= 57) || *c == '_'
}

/// The identifier characters, as the lexer accepts them.
pub open spec fn is_ident_char(c: char) -> bool {
    (97 <= c as int <= 122) || (65 <= c as int <= 90) || (48 <= c as int <= 57) || c == '_'
}

/// The value of a decimal digit byte, if it is one.
pub fn from_digit(c: u8) -> (r: Option<u8>)
    ensures
        r == spec_from_digit(c),
{
    match c {
        48..=57 => Some(c - 48),
        _ => None,
    }
}

/// The value of a decimal digit byte.
pub open spec fn spec_from_digit(c: u8) -> Option<u8> {
    if 48 <= c <= 57 {
        Some((c - 48) as u8)
    } else {
        None
    }
}

/// Whether a byte is a decimal digit.
pub fn is_digit(c: u8) -> (r: bool)
    ensures
        r == (spec_from_digit(c) is Some),
{
    from_digit(c).is_some()
}

/// The value of a hexadecimal digit byte, if it is one: decimal digits and
/// the letters in either case.
pub fn from_hex_digit(c: u8) -> (r: Option<u8>)
    ensures
        r == spec_from_hex_digit(c),
{
    match c {
        48..=57 => Some(c - 48),
        97..=102 => Some(10 + c - 97),
        65..=70 => Some(10 + c - 65),
        _ => None,
    }
}

/// The value of a hexadecimal digit byte.
pub open spec fn spec_from_hex_digit(c: u8) -> Option<u8> {
    if 48 <= c <= 57 {
        Some((c - 48) as u8)
    } else if 97 <= c <= 102 {
        Some((10 + c - 97) as u8)
    } else if 65 <= c <= 70 {
        Some((10 + c - 65) as u8)
    } else {
        None
    }
}

/// Whether a byte is a hexadecimal digit.
pub fn is_hex_digit(c: u8) -> (r: bool)
    ensures
        r == (spec_from_hex_digit(c) is Some),
{
    from_hex_digit(c).is_some()
}

/// The value of a run of hexadecimal digit characters, or nothing when a
/// character is no such digit or the value leaves `u64`.
pub open spec fn hex_value(s: Seq<char>, i: int, acc: Option<u64>) -> Option<u64>
    decreases s.len() - i,
{
    if i < 0 || i >= s.len() {
        acc
    } else {
        match acc {
            None => None,
            Some(v) => {
                if s[i] as u32 > 255 {
                    None
                } else {
                    match spec_from_hex_digit(s[i] as u8) {
                        None => None,
                        Some(d) => {
                            if v > 0xfff_ffff_ffff_ffff {
                                None
                            } else {
                                hex_value(s, i + 1, Some(((16 * v) + d) as u64))
                            }
                        },
                    }
                }
            },
        }
    }
}

/// Parse a hexadecimal integer of the form `0x...` or `0X...`. The prefix
/// is required; after it, the digits must be hexadecimal, nonempty, and
/// within `u64`.
pub fn parse_hex_integer(s: &str) -> (r: Result<u64, Error>)
    ensures
        match spec_parse_hex(s@) {
            Some(v) => r == Ok::<u64, Error>(v),
            None => r is Err,
        },
{
    let cs = chars_of(s);
    let ghost sq = s@;
    if cs.len() < 3 {
        return Err(Error::parsing_error("expected a hexadecimal integer".to_owned()));
    }
    let ok_prefix = cs[0] == '0' && (cs[1] == 'x' || cs[1] == 'X');
    if !ok_prefix {
        return Err(Error::parsing_error("expected prefix 0x for a hexadecimal integer".to_owned()));
    }
    let mut v: u64 = 0;
    let mut i: usize = 2;
    while i < cs.len()
        invariant
            sq == s@,
            cs@ == sq,
            2 <= i <= sq.len(),
            sq.len() >= 3,
            spec_parse_hex(sq) == hex_value(sq, 2, Some(0u64)),
            hex_value(sq, i as int, Some(v)) == hex_value(sq, 2, Some(0u64)),
        decreases sq.len() - i,
    {
        let ghost pre_v = v;
        let c = cs[i];
        let u = c as u32;
        if u > 255 {
            proof {
                assert(hex_value(sq, i as int, Some(v)) == None::<u64>);
            }
            return Err(Error::parsing_error("invalid hexadecimal digit".to_owned()));
        }
        let d = match from_hex_digit(c as u8) {
            Some(d) => d,
            None => {
                proof {
                    assert(hex_value(sq, i as int, Some(v)) == None::<u64>);
                }
                return Err(Error::parsing_error("invalid hexadecimal digit".to_owned()));
            },
        };
        if v > 0xfff_ffff_ffff_ffff {
            proof {
                assert(hex_value(sq, i as int, Some(v)) == None::<u64>);
            }
            return Err(Error::parsing_error("hexadecimal integer out of range".to_owned()));
        }
        v = 16 * v + (d as u64);
        i = i + 1;
        proof {
            assert(hex_value(sq, i - 1, Some(pre_v)) == hex_value(sq, i as int, Some(v)));
        }
    }
    Ok(v)
}

/// The value of a well-formed `0x`-prefixed hexadecimal literal.
pub open spec fn spec_parse_hex(s: Seq<char>) -> Option<u64> {
    if s.len() >= 3 && s[0] == '0' && (s[1] == 'x' || s[1] == 'X') {
        hex_value(s, 2, Some(0u64))
    } else {
        None
    }
}

} // verus!
