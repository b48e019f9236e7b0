//! The tokenizer: source text to a flat token sequence, validating bracket
//! nesting as it scans, followed by the conversion to a postfix queue.
//!
//! The scan is specified by `lex_from`, a recursive model over the character
//! sequence that carries the tokens produced so far and the stack of pending
//! open brackets. The executable tokenizer mirrors it step by step.

use crate::error::Error;
use crate::tok::{spec_postfix, Comparison, Expresions, Operator, Sign, Token};
use crate::value::{NumberType, Ty};
use vstd::prelude::*;

verus! {

/// Whitespace that the tokenizer skips: the characters with the Unicode
/// white-space property.
pub open spec fn is_space_char(c: char) -> bool {
    let u = c as u32;
    (9 <= u <= 13) || u == 0x20 || u == 0x85 || u == 0xA0 || u == 0x1680 || (0x2000 <= u
        <= 0x200A) || u == 0x2028 || u == 0x2029 || u == 0x202F || u == 0x205F || u == 0x3000
}

/// A decimal digit.
pub open spec fn is_digit_char(c: char) -> bool {
    48 <= c as int <= 57
}

/// The value of a decimal digit.
pub open spec fn digit_val(c: char) -> int {
    c as int - 48
}

/// A character that continues a numeric literal once a digit started it:
/// further digits, the discarded separators `_` and `-`, and the decimal
/// point.
pub open spec fn is_num_cont(c: char) -> bool {
    is_digit_char(c) || c == '_' || c == '-' || c == '.'
}

/// Where the numeric literal starting at `i` ends: the first position at or
/// after `i` holding no literal character.
pub open spec fn num_end(s: Seq<char>, i: int) -> int
    decreases s.len() - i,
{
    if i < 0 || i >= s.len() || !is_num_cont(s[i]) {
        i
    } else {
        num_end(s, i + 1)
    }
}

/// The span of a numeric literal: it stays within the text, holds only
/// literal characters, and stops at the first character of another kind.
proof fn lemma_num_end(s: Seq<char>, i: int)
    requires
        0 <= i <= s.len(),
    ensures
        i <= num_end(s, i) <= s.len(),
        forall|k: int| i <= k < num_end(s, i) ==> is_num_cont(s[k]),
        num_end(s, i) < s.len() ==> !is_num_cont(s[num_end(s, i)]),
        i < s.len() && is_num_cont(s[i]) ==> num_end(s, i) > i,
    decreases s.len() - i,
{
    if i < s.len() && is_num_cont(s[i]) {
        lemma_num_end(s, i + 1);
    }
}

/// Fold a literal span into a payload. The state is the payload gathered so
/// far (in hundredths), the decimal points seen, and the fraction digits
/// kept. Digits before the point grow the whole part; the first two digits
/// after it fill the hundredths; anything further is discarded, as are the
/// separators. The result is the final payload and the count of points.
pub open spec fn num_scan(s: Seq<char>, i: int, end: int, v: int, dots: int, fracs: int) -> (
    int,
    int,
)
    decreases end - i,
{
    if i < 0 || i >= end || end > s.len() {
        (v, dots)
    } else {
        let c = s[i];
        if is_digit_char(c) {
            if dots == 0 {
                num_scan(s, i + 1, end, v * 10 + digit_val(c) * 100, dots, fracs)
            } else if fracs == 0 {
                num_scan(s, i + 1, end, v + digit_val(c) * 10, dots, 1)
            } else if fracs == 1 {
                num_scan(s, i + 1, end, v + digit_val(c), dots, 2)
            } else {
                num_scan(s, i + 1, end, v, dots, fracs)
            }
        } else if c == '.' {
            num_scan(s, i + 1, end, v, dots + 1, fracs)
        } else {
            num_scan(s, i + 1, end, v, dots, fracs)
        }
    }
}

/// How the specification tokenizer can fail.
pub enum LexFail {
    /// A character no token starts with.
    BadTok(char),
    /// Unbalanced or mismatched brackets.
    Mismatch,
    /// A numeric literal with a second decimal point or beyond the payload
    /// range.
    BadNum,
}

/// The specification tokenizer, from position `i`, with the tokens produced
/// so far and the pending open brackets.
pub open spec fn lex_from(s: Seq<char>, i: int, toks: Seq<Token>, parens: Seq<char>) -> Result<
    Seq<Token>,
    LexFail,
>
    decreases s.len() - i,
{
    if i < 0 || i >= s.len() {
        if parens.len() > 0 {
            Err(LexFail::Mismatch)
        } else {
            Ok(toks.push(Token::EndTok))
        }
    } else {
        let c = s[i];
        if is_space_char(c) {
            lex_from(s, i + 1, toks, parens)
        } else if c == ';' {
            lex_from(s, i + 1, toks + seq![Token::EndTok, Token::StartTok], parens)
        } else if is_digit_char(c) {
            let j = num_end(s, i);
            let jj = if i < j <= s.len() {
                j
            } else {
                i + 1
            };
            let scan = num_scan(s, i, jj, 0, 0, 0);
            if scan.1 > 1 || scan.0 > i64::MAX as int {
                Err(LexFail::BadNum)
            } else {
                lex_from(
                    s,
                    jj,
                    toks.push(Token::Num(NumberType { ty: Ty::F64, val: scan.0 as i64 })),
                    parens,
                )
            }
        } else if c == '(' || c == '{' || c == '[' {
            lex_from(s, i + 1, toks.push(Token::Bracket(c)), parens.push(c))
        } else if c == ')' || c == '}' || c == ']' {
            let open = if c == ')' {
                '('
            } else if c == '}' {
                '{'
            } else {
                '['
            };
            if parens.len() > 0 && parens.last() == open {
                lex_from(s, i + 1, toks.push(Token::Bracket(c)), parens.drop_last())
            } else {
                Err(LexFail::Mismatch)
            }
        } else if c == '+' {
            lex_from(s, i + 1, toks.push(Token::Op(Operator::Add)), parens)
        } else if c == '-' {
            lex_from(s, i + 1, toks.push(Token::Op(Operator::Sub)), parens)
        } else if c == '*' {
            lex_from(s, i + 1, toks.push(Token::Op(Operator::Mul)), parens)
        } else if c == '/' {
            lex_from(s, i + 1, toks.push(Token::Op(Operator::Div)), parens)
        } else if c == '%' {
            lex_from(s, i + 1, toks.push(Token::Op(Operator::Rem)), parens)
        } else if c == '|' {
            lex_from(s, i + 1, toks.push(Token::Op(Operator::BitOr)), parens)
        } else if c == '&' {
            lex_from(s, i + 1, toks.push(Token::Op(Operator::BitAnd)), parens)
        } else if c == '^' {
            lex_from(s, i + 1, toks.push(Token::Op(Operator::BitXor)), parens)
        } else if c == '>' {
            if toks.len() > 0 && toks.last() == Token::Cmp(Comparison::Gt) {
                lex_from(s, i + 1, toks.update(toks.len() - 1, Token::Op(Operator::Shr)), parens)
            } else {
                lex_from(s, i + 1, toks.push(Token::Cmp(Comparison::Gt)), parens)
            }
        } else if c == '<' {
            if toks.len() > 0 && toks.last() == Token::Cmp(Comparison::Lt) {
                lex_from(s, i + 1, toks.update(toks.len() - 1, Token::Op(Operator::Shl)), parens)
            } else {
                lex_from(s, i + 1, toks.push(Token::Cmp(Comparison::Lt)), parens)
            }
        } else if c == '=' {
            if toks.len() > 0 && toks.last() == Token::Sign(Sign::Equal) {
                lex_from(s, i + 1, toks.update(toks.len() - 1, Token::Cmp(Comparison::Eq)), parens)
            } else if toks.len() > 0 && toks.last() == Token::Cmp(Comparison::Lt) {
                lex_from(s, i + 1, toks.update(toks.len() - 1, Token::Cmp(Comparison::Le)), parens)
            } else if toks.len() > 0 && toks.last() == Token::Cmp(Comparison::Gt) {
                lex_from(s, i + 1, toks.update(toks.len() - 1, Token::Cmp(Comparison::Ge)), parens)
            } else {
                lex_from(s, i + 1, toks.push(Token::Sign(Sign::Equal)), parens)
            }
        } else {
            Err(LexFail::BadTok(c))
        }
    }
}

/// The token sequence of a text: scanned from the start, between a start and
/// an end marker, with the bracket stack required to come out empty.
pub open spec fn spec_tokenize(s: Seq<char>) -> Result<Seq<Token>, LexFail> {
    lex_from(s, 0, seq![Token::StartTok], Seq::<char>::empty())
}

/// Parsing identical text twice always yields identical postfix queues: the
/// queue of a successful parse is a function of the text alone, so any two
/// results that `parse` may return for the same text are equal.
pub proof fn lemma_parse_deterministic(s: Seq<char>, q1: Seq<Token>, q2: Seq<Token>)
    requires
        spec_tokenize(s) matches Ok(toks) && q1 == spec_postfix(toks) && q2 == spec_postfix(
            toks,
        ),
    ensures
        q1 == q2,
{
}

/// The bracket stack left at the end of a scan that starts at `i` with the
/// pending brackets `parens`: none at all if the scan aborts early, and the
/// final stack if it reaches the end of the text. The positions visited and
/// the abort conditions are those of `lex_from`, which never depend on the
/// tokens produced.
pub open spec fn scan_parens(s: Seq<char>, i: int, parens: Seq<char>) -> Option<Seq<char>>
    decreases s.len() - i,
{
    if i < 0 || i >= s.len() {
        Some(parens)
    } else {
        let c = s[i];
        if is_digit_char(c) {
            let j = num_end(s, i);
            let jj = if i < j <= s.len() {
                j
            } else {
                i + 1
            };
            let scan = num_scan(s, i, jj, 0, 0, 0);
            if scan.1 > 1 || scan.0 > i64::MAX as int {
                None
            } else {
                scan_parens(s, jj, parens)
            }
        } else if c == '(' || c == '{' || c == '[' {
            scan_parens(s, i + 1, parens.push(c))
        } else if c == ')' || c == '}' || c == ']' {
            let open = if c == ')' {
                '('
            } else if c == '}' {
                '{'
            } else {
                '['
            };
            if parens.len() > 0 && parens.last() == open {
                scan_parens(s, i + 1, parens.drop_last())
            } else {
                None
            }
        } else if is_space_char(c) || c == ';' || c == '+' || c == '-' || c == '*' || c == '/'
            || c == '%' || c == '|' || c == '&' || c == '^' || c == '>' || c == '<' || c == '=' {
            scan_parens(s, i + 1, parens)
        } else {
            None
        }
    }
}

/// A successful scan reaches the end of the text with an empty bracket
/// stack, whatever tokens it carries.
proof fn lemma_balance_from(s: Seq<char>, i: int, toks: Seq<Token>, parens: Seq<char>)
    requires
        0 <= i,
        lex_from(s, i, toks, parens) is Ok,
    ensures
        scan_parens(s, i, parens) == Some(Seq::<char>::empty()),
    decreases s.len() - i,
{
    if i >= s.len() {
        assert(parens =~= Seq::<char>::empty());
    } else {
        let c = s[i];
        if is_space_char(c) {
            lemma_balance_from(s, i + 1, toks, parens);
        } else if c == ';' {
            lemma_balance_from(s, i + 1, toks + seq![Token::EndTok, Token::StartTok], parens);
        } else if is_digit_char(c) {
            let j = num_end(s, i);
            let jj = if i < j <= s.len() {
                j
            } else {
                i + 1
            };
            let scan = num_scan(s, i, jj, 0, 0, 0);
            lemma_balance_from(
                s,
                jj,
                toks.push(Token::Num(NumberType { ty: Ty::F64, val: scan.0 as i64 })),
                parens,
            );
        } else if c == '(' || c == '{' || c == '[' {
            lemma_balance_from(s, i + 1, toks.push(Token::Bracket(c)), parens.push(c));
        } else if c == ')' || c == '}' || c == ']' {
            lemma_balance_from(s, i + 1, toks.push(Token::Bracket(c)), parens.drop_last());
        } else if c == '+' {
            lemma_balance_from(s, i + 1, toks.push(Token::Op(Operator::Add)), parens);
        } else if c == '-' {
            lemma_balance_from(s, i + 1, toks.push(Token::Op(Operator::Sub)), parens);
        } else if c == '*' {
            lemma_balance_from(s, i + 1, toks.push(Token::Op(Operator::Mul)), parens);
        } else if c == '/' {
            lemma_balance_from(s, i + 1, toks.push(Token::Op(Operator::Div)), parens);
        } else if c == '%' {
            lemma_balance_from(s, i + 1, toks.push(Token::Op(Operator::Rem)), parens);
        } else if c == '|' {
            lemma_balance_from(s, i + 1, toks.push(Token::Op(Operator::BitOr)), parens);
        } else if c == '&' {
            lemma_balance_from(s, i + 1, toks.push(Token::Op(Operator::BitAnd)), parens);
        } else if c == '^' {
            lemma_balance_from(s, i + 1, toks.push(Token::Op(Operator::BitXor)), parens);
        } else if c == '>' {
            if toks.len() > 0 && toks.last() == Token::Cmp(Comparison::Gt) {
                lemma_balance_from(
                    s,
                    i + 1,
                    toks.update(toks.len() - 1, Token::Op(Operator::Shr)),
                    parens,
                );
            } else {
                lemma_balance_from(s, i + 1, toks.push(Token::Cmp(Comparison::Gt)), parens);
            }
        } else if c == '<' {
            if toks.len() > 0 && toks.last() == Token::Cmp(Comparison::Lt) {
                lemma_balance_from(
                    s,
                    i + 1,
                    toks.update(toks.len() - 1, Token::Op(Operator::Shl)),
                    parens,
                );
            } else {
                lemma_balance_from(s, i + 1, toks.push(Token::Cmp(Comparison::Lt)), parens);
            }
        } else if c == '=' {
            if toks.len() > 0 && toks.last() == Token::Sign(Sign::Equal) {
                lemma_balance_from(
                    s,
                    i + 1,
                    toks.update(toks.len() - 1, Token::Cmp(Comparison::Eq)),
                    parens,
                );
            } else if toks.len() > 0 && toks.last() == Token::Cmp(Comparison::Lt) {
                lemma_balance_from(
                    s,
                    i + 1,
                    toks.update(toks.len() - 1, Token::Cmp(Comparison::Le)),
                    parens,
                );
            } else if toks.len() > 0 && toks.last() == Token::Cmp(Comparison::Gt) {
                lemma_balance_from(
                    s,
                    i + 1,
                    toks.update(toks.len() - 1, Token::Cmp(Comparison::Ge)),
                    parens,
                );
            } else {
                lemma_balance_from(s, i + 1, toks.push(Token::Sign(Sign::Equal)), parens);
            }
        }
    }
}

/// The balance invariant: a queue to evaluate exists only after the
/// tokenizer succeeded, and whenever it succeeds, its bracket stack was
/// empty when the scan reached the end of the text.
pub proof fn lemma_brackets_balanced(s: Seq<char>)
    requires
        spec_tokenize(s) is Ok,
    ensures
        scan_parens(s, 0, Seq::<char>::empty()) == Some(Seq::<char>::empty()),
{
    lemma_balance_from(s, 0, seq![Token::StartTok], Seq::<char>::empty());
}

/// Whitespace test mirroring the model.
pub(crate) fn is_space_c(c: char) -> (r: bool)
    ensures
        r == is_space_char(c),
{
    let u = c as u32;
    (9 <= u && u <= 13) || u == 0x20 || u == 0x85 || u == 0xA0 || u == 0x1680 || (0x2000 <= u
        && u <= 0x200A) || u == 0x2028 || u == 0x2029 || u == 0x202F || u == 0x205F || u == 0x3000
}

/// Digit test mirroring the model.
pub(crate) fn is_digit_c(c: char) -> (r: bool)
    ensures
        r == is_digit_char(c),
{
    let u = c as u32;
    48 <= u && u <= 57
}

/// Literal-continuation test mirroring the model.
fn is_num_cont_c(c: char) -> (r: bool)
    ensures
        r == is_num_cont(c),
{
    is_digit_c(c) || c == '_' || c == '-' || c == '.'
}

/// The value of a digit character.
fn digit_of(c: char) -> (d: u8)
    requires
        is_digit_char(c),
    ensures
        d as int == digit_val(c),
{
    ((c as u32) - 48) as u8
}

/// Tokenize a text and convert it to a postfix queue. The result is the
/// queue of the model's token sequence; each way the model rejects the text
/// maps to its error: an unknown character is reported with that character,
/// a bracket fault is structural, and a bad numeric literal is a value
/// error.
pub fn parse(expr: &str) -> (r: Result<Expresions, Error>)
    ensures
        match spec_tokenize(expr@) {
            Ok(toks) => match r {
                Ok(ex) => ex.queue@ == spec_postfix(toks),
                Err(_) => false,
            },
            Err(f) => match r {
                Ok(_) => false,
                Err(e) => match f {
                    LexFail::BadTok(c) => e == Error::BadToken(c),
                    LexFail::Mismatch => e == Error::MismatchParams,
                    LexFail::BadNum => e matches Error::ParsingError(m) && m@
                        == ("invalid numeric literal")@,
                },
            },
        },
{
    let chars = crate::util::chars_of(expr);
    let ghost s = expr@;
    let ghost target = spec_tokenize(s);
    let mut toks: Vec<Token> = Vec::new();
    toks.push(Token::StartTok);
    let mut parens: Vec<char> = Vec::new();
    let mut i: usize = 0;
    proof {
        assert(toks@ =~= seq![Token::StartTok]);
        assert(parens@ =~= Seq::<char>::empty());
    }
    while i < chars.len()
        invariant
            s == expr@,
            target == spec_tokenize(s),
            chars@ == s,
            i <= s.len(),
            lex_from(s, i as int, toks@, parens@) == target,
        decreases s.len() - i,
    {
        let ghost pre_toks = toks@;
        let ghost pre_parens = parens@;
        let c = chars[i];
        if is_space_c(c) {
            i = i + 1;
            continue ;
        }
        if c == ';' {
            toks.push(Token::EndTok);
            toks.push(Token::StartTok);
            proof {
                assert(toks@ =~= pre_toks + seq![Token::EndTok, Token::StartTok]);
            }
            i = i + 1;
            continue ;
        }
        if is_digit_c(c) {
            let ghost jj = num_end(s, i as int);
            proof {
                lemma_num_end(s, i as int);
            }
            let mut j: usize = i;
            let mut v: u128 = 0;
            let mut dots: u8 = 0;
            let mut fr: u8 = 0;
            let ghost mut gv: int = 0;
            let ghost mut gdots: int = 0;
            while j < chars.len() && is_num_cont_c(chars[j])
                invariant
                    chars@ == s,
                    i <= j <= jj <= s.len(),
                    jj == num_end(s, i as int),
                    forall|k: int| i <= k < jj ==> is_num_cont(s[k]),
                    jj < s.len() ==> !is_num_cont(s[jj]),
                    gv >= 0,
                    gdots >= 0,
                    fr <= 2,
                    gdots == 0 ==> fr == 0,
                    gdots <= 2 ==> dots as int == gdots,
                    gdots > 2 ==> dots == 2,
                    v <= 0x8000_0000_0000_0000,
                    gv <= i64::MAX as int ==> v as int == gv,
                    gv > i64::MAX as int ==> v == 0x8000_0000_0000_0000,
                    num_scan(s, j as int, jj, gv, gdots, fr as int) == num_scan(
                        s,
                        i as int,
                        jj,
                        0,
                        0,
                        0,
                    ),
                decreases jj - j,
            {
                let ghost pre_gv = gv;
                let ghost pre_gdots = gdots;
                let ghost pre_fr = fr;
                let cc = chars[j];
                if is_digit_c(cc) {
                    let d = digit_of(cc) as u128;
                    if dots == 0 {
                        v = v * 10 + d * 100;
                        proof {
                            gv = gv * 10 + digit_val(cc) * 100;
                        }
                    } else if fr == 0 {
                        v = v + d * 10;
                        fr = 1;
                        proof {
                            gv = gv + digit_val(cc) * 10;
                        }
                    } else if fr == 1 {
                        v = v + d;
                        fr = 2;
                        proof {
                            gv = gv + digit_val(cc);
                        }
                    }
                    if v > 0x7fff_ffff_ffff_ffff {
                        v = 0x8000_0000_0000_0000;
                    }
                } else if cc == '.' {
                    if dots < 2 {
                        dots = dots + 1;
                    }
                    proof {
                        gdots = gdots + 1;
                    }
                }
                j = j + 1;
                proof {
                    assert(num_scan(s, j - 1, jj, pre_gv, pre_gdots, pre_fr as int) == num_scan(
                        s,
                        j as int,
                        jj,
                        gv,
                        gdots,
                        fr as int,
                    ));
                }
            }
            proof {
                assert(j == jj);
            }
            if dots > 1 || v > 0x7fff_ffff_ffff_ffff {
                proof {
                    assert(num_scan(s, jj, jj, gv, gdots, fr as int) == (gv, gdots));
                    assert(target == Err::<Seq<Token>, LexFail>(LexFail::BadNum));
                }
                let msg = "invalid numeric literal".to_owned();
                return Err(Error::ParsingError(msg));
            }
            toks.push(Token::Num(NumberType::new_scaled(Ty::F64, v as i64)));
            proof {
                assert(toks@ =~= pre_toks.push(
                    Token::Num(NumberType { ty: Ty::F64, val: gv as i64 }),
                ));
            }
            i = j;
            continue ;
        }
        if c == '(' || c == '{' || c == '[' {
            toks.push(Token::Bracket(c));
            parens.push(c);
            i = i + 1;
            continue ;
        }
        if c == ')' || c == '}' || c == ']' {
            toks.push(Token::Bracket(c));
            let open = if c == ')' {
                '('
            } else if c == '}' {
                '{'
            } else {
                '['
            };
            let n = parens.len();
            if n == 0 {
                proof {
                    assert(lex_from(s, i as int, pre_toks, pre_parens) == target);
                    assert(target == Err::<Seq<Token>, LexFail>(LexFail::Mismatch));
                }
                return Err(Error::MismatchParams);
            }
            let top = parens[n - 1];
            if top != open {
                proof {
                    assert(lex_from(s, i as int, pre_toks, pre_parens) == target);
                    assert(target == Err::<Seq<Token>, LexFail>(LexFail::Mismatch));
                }
                return Err(Error::MismatchParams);
            }
            parens.pop();
            proof {
                assert(parens@ =~= pre_parens.drop_last());
            }
            i = i + 1;
            continue ;
        }
        let single = match c {
            '+' => Some(Operator::Add),
            '-' => Some(Operator::Sub),
            '*' => Some(Operator::Mul),
            '/' => Some(Operator::Div),
            '%' => Some(Operator::Rem),
            '|' => Some(Operator::BitOr),
            '&' => Some(Operator::BitAnd),
            '^' => Some(Operator::BitXor),
            _ => None,
        };
        match single {
            Some(op) => {
                toks.push(Token::Op(op));
                i = i + 1;
                continue ;
            },
            None => {},
        }
        if c == '>' || c == '<' || c == '=' {
            let n = toks.len();
            let last = if n > 0 {
                Some(toks[n - 1])
            } else {
                None
            };
            let rewrite: Option<Token> = if c == '>' {
                match last {
                    Some(Token::Cmp(Comparison::Gt)) => Some(Token::Op(Operator::Shr)),
                    _ => None,
                }
            } else if c == '<' {
                match last {
                    Some(Token::Cmp(Comparison::Lt)) => Some(Token::Op(Operator::Shl)),
                    _ => None,
                }
            } else {
                match last {
                    Some(Token::Sign(Sign::Equal)) => Some(Token::Cmp(Comparison::Eq)),
                    Some(Token::Cmp(Comparison::Lt)) => Some(Token::Cmp(Comparison::Le)),
                    Some(Token::Cmp(Comparison::Gt)) => Some(Token::Cmp(Comparison::Ge)),
                    _ => None,
                }
            };
            match rewrite {
                Some(t) => {
                    toks.pop();
                    toks.push(t);
                    proof {
                        assert(toks@ =~= pre_toks.update(pre_toks.len() - 1, t));
                    }
                },
                None => {
                    let fresh = if c == '>' {
                        Token::Cmp(Comparison::Gt)
                    } else if c == '<' {
                        Token::Cmp(Comparison::Lt)
                    } else {
                        Token::Sign(Sign::Equal)
                    };
                    toks.push(fresh);
                },
            }
            i = i + 1;
            continue ;
        }
        proof {
            assert(target == Err::<Seq<Token>, LexFail>(LexFail::BadTok(c)));
        }
        return Err(Error::BadToken(c));
    }
    if parens.len() > 0 {
        proof {
            assert(target == Err::<Seq<Token>, LexFail>(LexFail::Mismatch));
        }
        return Err(Error::MismatchParams);
    }
    let ghost pre_toks = toks@;
    proof {
        assert(target == Ok::<Seq<Token>, LexFail>(pre_toks.push(Token::EndTok)));
    }
    toks.push(Token::EndTok);
    proof {
        assert(toks@ =~= pre_toks.push(Token::EndTok));
    }
    Ok(Expresions::from_parser(toks))
}

} // verus!
