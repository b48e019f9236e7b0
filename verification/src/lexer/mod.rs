//! An exploratory lexer for a statement-level language: keywords,
//! identifiers, punctuation and numeric literals. It is a standalone
//! collaborator — nothing of the expression evaluator consumes it.
//!
//! The cursor state machine, whitespace skipping, the scanners and the
//! punctuation table are specified exactly: each token's contract pins the
//! token, the characters consumed and where the cursor lands, so a caller
//! can derive whole token sequences, and every produced token makes
//! progress through the text.

pub mod error;
pub mod token;

use crate::error::Error;
use crate::lexer::error::{LexError, LexErrorKind};
use crate::lexer::token::Token;
use crate::location::Loc;
use crate::parser::{digit_val, is_digit_char, is_space_char};
use crate::util::{spec_from_hex_digit, str_eq, string_from_chars};
use vstd::prelude::*;

verus! {

/// How the cursor advances: the next character, or the null byte once the
/// text is exhausted (the position then stays put).
pub open spec fn spec_advance(chars: Seq<char>, pos: int) -> (char, int) {
    if 0 <= pos < chars.len() {
        (chars[pos], pos + 1)
    } else {
        ('\0', pos)
    }
}

/// How leaving a character moves the location: a line break starts a new
/// line, anything else moves one column right; both saturate rather than
/// overflow.
pub open spec fn spec_loc_step(l: Loc, c: char) -> Loc {
    if c == '\n' || c == '\r' {
        Loc {
            source: l.source,
            line: if l.line < u32::MAX {
                (l.line + 1) as u32
            } else {
                l.line
            },
            col: 0,
        }
    } else {
        Loc {
            source: l.source,
            line: l.line,
            col: if l.col < u32::MAX {
                (l.col + 1) as u32
            } else {
                l.col
            },
        }
    }
}

/// Where the cursor lands when whitespace is skipped: the first cursor
/// state holding no whitespace, with the location stepped past each
/// whitespace character left behind.
pub open spec fn ws_skip(chars: Seq<char>, curr: char, pos: int, l: Loc) -> (char, int, Loc)
    decreases
            chars.len() - pos + (if is_space_char(curr) {
                1int
            } else {
                0int
            }),
{
    if !is_space_char(curr) || pos < 0 || pos > chars.len() {
        (curr, pos, l)
    } else {
        let next = spec_advance(chars, pos);
        ws_skip(chars, next.0, next.1, spec_loc_step(l, curr))
    }
}

/// The cursor after `n` advances from position `pos`.
pub open spec fn advance_n(chars: Seq<char>, pos: int, n: nat) -> (char, int)
    decreases n,
{
    if n == 0 {
        ('\0', pos)
    } else if n == 1 {
        spec_advance(chars, pos)
    } else {
        advance_n(chars, spec_advance(chars, pos).1, (n - 1) as nat)
    }
}

/// Advancing never moves the cursor backwards or past the end, and a
/// cursor that could not move at all has run out of text.
proof fn lemma_advance_n(chars: Seq<char>, pos: int, n: nat)
    requires
        0 <= pos <= chars.len(),
    ensures
        pos <= advance_n(chars, pos, n).1 <= chars.len(),
        n > 0 && advance_n(chars, pos, n).1 == pos ==> advance_n(chars, pos, n).0 == '\0',
    decreases n,
{
    if n > 1 {
        lemma_advance_n(chars, spec_advance(chars, pos).1, (n - 1) as nat);
    }
}

/// Where the word starting at `i` ends: the first position at or after `i`
/// holding no identifier character.
pub open spec fn ident_end(s: Seq<char>, i: int) -> int
    decreases s.len() - i,
{
    if i < 0 || i >= s.len() || !crate::util::is_ident_char(s[i]) {
        i
    } else {
        ident_end(s, i + 1)
    }
}

/// The span of a word: it stays within the text, holds only identifier
/// characters, and stops at the first character of another kind.
proof fn lemma_ident_end(s: Seq<char>, i: int)
    requires
        0 <= i <= s.len(),
    ensures
        i <= ident_end(s, i) <= s.len(),
        forall|k: int| i <= k < ident_end(s, i) ==> crate::util::is_ident_char(s[k]),
        ident_end(s, i) < s.len() ==> !crate::util::is_ident_char(s[ident_end(s, i)]),
    decreases s.len() - i,
{
    if i < s.len() && crate::util::is_ident_char(s[i]) {
        lemma_ident_end(s, i + 1);
    }
}

/// The keyword a word spells, if any.
pub open spec fn spec_keyword(w: Seq<char>) -> Option<Token> {
    if w == ("if")@ {
        Some(Token::If)
    } else if w == ("else")@ {
        Some(Token::Else)
    } else if w == ("elif")@ {
        Some(Token::Elif)
    } else if w == ("return")@ {
        Some(Token::Return)
    } else if w == ("while")@ {
        Some(Token::While)
    } else if w == ("for")@ {
        Some(Token::For)
    } else if w == ("break")@ {
        Some(Token::Break)
    } else if w == ("continue")@ {
        Some(Token::Continue)
    } else if w == ("struct")@ {
        Some(Token::Struct)
    } else if w == ("true")@ {
        Some(Token::True)
    } else if w == ("false")@ {
        Some(Token::False)
    } else {
        None
    }
}

/// The character at a position, if the position lies within the text.
pub open spec fn peek_at(chars: Seq<char>, pos: int) -> Option<char> {
    if 0 <= pos < chars.len() {
        Some(chars[pos])
    } else {
        None
    }
}

/// The tokens a word can scan to: a keyword or an identifier.
pub open spec fn is_word_token(t: Token) -> bool {
    ||| t is If
    ||| t is Else
    ||| t is Elif
    ||| t is Return
    ||| t is While
    ||| t is For
    ||| t is Break
    ||| t is Continue
    ||| t is Struct
    ||| t is True
    ||| t is False
    ||| t is Ident
}

/// The cursor state of a hexadecimal-literal scan, with the value gathered
/// so far and whether any digit was seen at all.
pub struct HexScan {
    /// The value gathered so far, as an unbounded number.
    pub value: int,
    /// Whether at least one digit was seen.
    pub any: bool,
    /// The character under the cursor.
    pub curr: char,
    /// The position of the next character.
    pub pos: int,
}

/// Fold a run of hexadecimal digits and separators into a value, from a
/// cursor state to the first state holding neither.
pub open spec fn hex_scan(chars: Seq<char>, st: HexScan) -> HexScan
    decreases
            chars.len() - st.pos + (if is_hex_cont(st.curr) {
                1int
            } else {
                0int
            }),
{
    let c = st.curr;
    if st.pos < 0 || st.pos > chars.len() {
        st
    } else if c as u32 <= 255 && spec_from_hex_digit(c as u8) is Some {
        let d = spec_from_hex_digit(c as u8).unwrap();
        let next = spec_advance(chars, st.pos);
        hex_scan(
            chars,
            HexScan { value: st.value * 16 + d, any: true, curr: next.0, pos: next.1 },
        )
    } else if c == '_' || c == ',' {
        let next = spec_advance(chars, st.pos);
        hex_scan(chars, HexScan { value: st.value, any: st.any, curr: next.0, pos: next.1 })
    } else {
        st
    }
}

/// The cursor state of a decimal-literal scan: the text gathered so far,
/// its value as a plain number, and the flags the scan steers by.
pub struct DecScan {
    /// The characters kept for a float token, case folded.
    pub text: Seq<char>,
    /// The value of the digits seen, as an unbounded number.
    pub value: int,
    /// False once a letter makes the run no plain integer.
    pub int_ok: bool,
    /// True once a decimal point or an exponent sign was seen.
    pub is_float: bool,
    /// True once a decimal point was seen.
    pub has_radix: bool,
    /// True when a second decimal point aborted the scan.
    pub bad_dot: bool,
    /// The character under the cursor.
    pub curr: char,
    /// The position of the next character.
    pub pos: int,
}

/// Whether a character keeps a decimal-literal scan going, given whether
/// the text so far ends in an exponent letter.
pub open spec fn dec_cont(c: char, last_e: bool) -> bool {
    is_digit_char(c) || (97 <= c as int <= 102) || (65 <= c as int <= 70) || ((c == '+' || c
        == '-') && last_e) || c == '.' || c == '_' || c == ','
}

/// Fold a decimal literal from a cursor state: digits grow the value and
/// the text, the hex letters join the text case folded and spoil the
/// integer, an exponent sign may follow its letter, the first decimal point
/// marks a float and a second one aborts, and separators vanish.
pub open spec fn dec_scan(chars: Seq<char>, st: DecScan) -> DecScan
    decreases
            chars.len() - st.pos + (if dec_cont(
                st.curr,
                st.text.len() > 0 && st.text.last() == 'e',
            ) {
                1int
            } else {
                0int
            }),
{
    let c = st.curr;
    let last_e = st.text.len() > 0 && st.text.last() == 'e';
    if st.pos < 0 || st.pos > chars.len() {
        st
    } else if is_digit_char(c) {
        let next = spec_advance(chars, st.pos);
        dec_scan(
            chars,
            DecScan {
                text: st.text.push(c),
                value: st.value * 10 + digit_val(c),
                curr: next.0,
                pos: next.1,
                ..st
            },
        )
    } else if 97 <= c as int <= 102 {
        let next = spec_advance(chars, st.pos);
        dec_scan(
            chars,
            DecScan { text: st.text.push(c), int_ok: false, curr: next.0, pos: next.1, ..st },
        )
    } else if 65 <= c as int <= 70 {
        let next = spec_advance(chars, st.pos);
        dec_scan(
            chars,
            DecScan {
                text: st.text.push(((((c as u32) + 32) as u8) as char)),
                int_ok: false,
                curr: next.0,
                pos: next.1,
                ..st
            },
        )
    } else if (c == '+' || c == '-') && last_e {
        let next = spec_advance(chars, st.pos);
        dec_scan(
            chars,
            DecScan {
                text: st.text.push(c),
                is_float: true,
                curr: next.0,
                pos: next.1,
                ..st
            },
        )
    } else if c == '.' && !st.has_radix {
        let next = spec_advance(chars, st.pos);
        dec_scan(
            chars,
            DecScan {
                text: st.text.push(c),
                is_float: true,
                has_radix: true,
                curr: next.0,
                pos: next.1,
                ..st
            },
        )
    } else if c == '.' {
        let next = spec_advance(chars, st.pos);
        DecScan { bad_dot: true, curr: next.0, pos: next.1, ..st }
    } else if c == '_' || c == ',' {
        let next = spec_advance(chars, st.pos);
        dec_scan(chars, DecScan { curr: next.0, pos: next.1, ..st })
    } else {
        st
    }
}

/// The punctuation token spelled by a cursor character `c` and the one or
/// two characters after it, when `c` starts punctuation at all.
pub open spec fn spec_punct(c: char, p1: Option<char>, p2: Option<char>) -> Option<Token> {
    if c == '{' {
        Some(Token::LSquirly)
    } else if c == '(' {
        Some(Token::LParen)
    } else if c == '[' {
        Some(Token::LBracket)
    } else if c == '}' {
        Some(Token::RSquirly)
    } else if c == ')' {
        Some(Token::RParen)
    } else if c == ']' {
        Some(Token::RBracket)
    } else if c == ',' {
        Some(Token::Comma)
    } else if c == ';' {
        Some(Token::SemiColon)
    } else if c == '!' {
        Some(
            if p1 == Some('=') {
                Token::Ne
            } else {
                Token::Not
            },
        )
    } else if c == '%' {
        Some(
            if p1 == Some('=') {
                Token::RemAssign
            } else {
                Token::Rem
            },
        )
    } else if c == '+' {
        Some(
            if p1 == Some('=') {
                Token::AddAssign
            } else {
                Token::Add
            },
        )
    } else if c == '~' {
        Some(
            if p1 == Some('=') {
                Token::BitNotXorAssign
            } else {
                Token::BitNotXor
            },
        )
    } else if c == '*' {
        Some(
            if p1 == Some('*') {
                Token::Pow
            } else if p1 == Some('=') {
                Token::MulAssign
            } else {
                Token::Mul
            },
        )
    } else if c == '=' {
        Some(
            if p1 == Some('=') {
                Token::Eq
            } else if p1 == Some('>') {
                Token::FatArrow
            } else {
                Token::Assign
            },
        )
    } else if c == '-' {
        Some(
            if p1 == Some('>') {
                Token::Arrow
            } else if p1 == Some('=') {
                Token::SubAssign
            } else {
                Token::Sub
            },
        )
    } else if c == ':' {
        Some(
            if p1 == Some(':') {
                Token::Decl
            } else if p1 == Some('=') {
                Token::DeclAssign
            } else {
                Token::Colon
            },
        )
    } else if c == '|' {
        Some(
            if p1 == Some('=') {
                Token::BitOrAssign
            } else if p1 == Some('|') {
                Token::LogicOr
            } else {
                Token::BitOr
            },
        )
    } else if c == '&' {
        Some(
            if p1 == Some('=') {
                Token::BitAndAssign
            } else if p1 == Some('&') {
                Token::LogicAnd
            } else {
                Token::BitAnd
            },
        )
    } else if c == '.' {
        Some(
            if p1 == Some('.') {
                if p2 == Some('=') {
                    Token::RangeInc
                } else {
                    Token::Range
                }
            } else {
                Token::Dot
            },
        )
    } else if c == '<' {
        Some(
            if p1 == Some('<') {
                if p2 == Some('=') {
                    Token::ShlAssign
                } else {
                    Token::Shl
                }
            } else if p1 == Some('=') {
                Token::Lte
            } else {
                Token::Lt
            },
        )
    } else if c == '>' {
        Some(
            if p1 == Some('>') {
                if p2 == Some('=') {
                    Token::ShrAssign
                } else {
                    Token::Shr
                }
            } else if p1 == Some('=') {
                Token::Gte
            } else {
                Token::Gt
            },
        )
    } else if c == '/' {
        Some(
            if p1 == Some('/') {
                if p2 == Some('=') {
                    Token::IDivAssign
                } else {
                    Token::IDiv
                }
            } else if p1 == Some('=') {
                Token::DivAssign
            } else {
                Token::Div
            },
        )
    } else if c == '^' {
        Some(
            if p1 == Some('^') {
                if p2 == Some('=') {
                    Token::BitXorAssign
                } else {
                    Token::BitXor
                }
            } else if p1 == Some('=') {
                Token::PowAssign
            } else {
                Token::Pow
            },
        )
    } else {
        None
    }
}

/// How many characters the punctuation token starting at `c` spells, given
/// the one or two characters after it (zero when `c` starts none).
pub open spec fn punct_len(c: char, p1: Option<char>, p2: Option<char>) -> nat {
    if c == '{' || c == '(' || c == '[' || c == '}' || c == ')' || c == ']' || c == ',' || c
        == ';' {
        1
    } else if c == '!' || c == '%' || c == '+' || c == '~' {
        if p1 == Some('=') {
            2
        } else {
            1
        }
    } else if c == '*' {
        if p1 == Some('*') || p1 == Some('=') {
            2
        } else {
            1
        }
    } else if c == '=' {
        if p1 == Some('=') || p1 == Some('>') {
            2
        } else {
            1
        }
    } else if c == '-' {
        if p1 == Some('>') || p1 == Some('=') {
            2
        } else {
            1
        }
    } else if c == ':' {
        if p1 == Some(':') || p1 == Some('=') {
            2
        } else {
            1
        }
    } else if c == '|' {
        if p1 == Some('=') || p1 == Some('|') {
            2
        } else {
            1
        }
    } else if c == '&' {
        if p1 == Some('=') || p1 == Some('&') {
            2
        } else {
            1
        }
    } else if c == '.' {
        if p1 == Some('.') {
            if p2 == Some('=') {
                3
            } else {
                2
            }
        } else {
            1
        }
    } else if c == '<' {
        if p1 == Some('<') {
            if p2 == Some('=') {
                3
            } else {
                2
            }
        } else if p1 == Some('=') {
            2
        } else {
            1
        }
    } else if c == '>' {
        if p1 == Some('>') {
            if p2 == Some('=') {
                3
            } else {
                2
            }
        } else if p1 == Some('=') {
            2
        } else {
            1
        }
    } else if c == '/' {
        if p1 == Some('/') {
            if p2 == Some('=') {
                3
            } else {
                2
            }
        } else if p1 == Some('=') {
            2
        } else {
            1
        }
    } else if c == '^' {
        if p1 == Some('^') {
            if p2 == Some('=') {
                3
            } else {
                2
            }
        } else if p1 == Some('=') {
            2
        } else {
            1
        }
    } else {
        0
    }
}

/// The lexer: a cursor over the characters of one source text.
pub struct Lexer {
    /// The character under the cursor; the null byte once the text ends.
    pub curr_char: char,
    /// The position the cursor reports in errors.
    pub loc: Loc,
    /// The characters of the source text.
    pub chars: Vec<char>,
    /// The index of the next character to read.
    pub pos: usize,
}

impl Lexer {
    /// Well-formedness: the cursor never passes the end of the text.
    pub open spec fn wf(self) -> bool {
        self.pos <= self.chars@.len()
    }

    /// A lexer over the given text, with the first character loaded.
    pub fn new(s: &str) -> (r: Lexer)
        ensures
            r.wf(),
            r.chars@ == s@,
            r.curr_char == spec_advance(s@, 0).0,
            r.pos as int == spec_advance(s@, 0).1,
            r.loc.source is None,
            r.loc.line == 0,
            r.loc.col == 1,
    {
        let mut l = Lexer {
            curr_char: '\0',
            loc: Loc::new(0, 0),
            chars: crate::util::chars_of(s),
            pos: 0,
        };
        l.read_char();
        l
    }

    /// The same lexer, reporting its positions inside the named source.
    pub fn set_source_path(self, path: String) -> (r: Self)
        ensures
            r.chars == self.chars,
            r.pos == self.pos,
            r.curr_char == self.curr_char,
            r.loc.source == Some(path),
            r.loc.line == self.loc.line,
            r.loc.col == self.loc.col,
    {
        let Lexer { curr_char, loc, chars, pos } = self;
        Lexer { curr_char, loc: loc.set_source(path), chars, pos }
    }

    /// Nothing to reset: each lexer serves a single text.
    pub fn reset(&mut self)
        ensures
            *final(self) == *old(self),
    {
    }

    /// Move the location past the character under the cursor.
    fn on_newline(&mut self)
        ensures
            final(self).loc == spec_loc_step(old(self).loc, old(self).curr_char),
            final(self).chars == old(self).chars,
            final(self).pos == old(self).pos,
            final(self).curr_char == old(self).curr_char,
    {
        if self.curr_char == '\n' || self.curr_char == '\r' {
            if self.loc.line() < u32::MAX {
                self.loc.inc_line();
            }
            self.loc.set_col(0);
        } else {
            if self.loc.col() < u32::MAX {
                self.loc.inc_col();
            }
        }
    }

    /// Load the next character, or the null byte at the end of the text.
    fn read_char(&mut self) -> (c: char)
        requires
            old(self).wf(),
        ensures
            final(self).wf(),
            final(self).chars == old(self).chars,
            final(self).curr_char == spec_advance(old(self).chars@, old(self).pos as int).0,
            final(self).pos as int == spec_advance(old(self).chars@, old(self).pos as int).1,
            final(self).loc == spec_loc_step(old(self).loc, old(self).curr_char),
            c == final(self).curr_char,
    {
        self.on_newline();
        if self.pos < self.chars.len() {
            self.curr_char = self.chars[self.pos];
            self.pos = self.pos + 1;
        } else {
            self.curr_char = '\0';
        }
        self.curr_char
    }

    /// The character after the cursor, if any, without moving.
    fn peek(&self) -> (r: Option<char>)
        ensures
            r == (if self.pos < self.chars@.len() {
                Some(self.chars@[self.pos as int])
            } else {
                None::<char>
            }),
    {
        if self.pos < self.chars.len() {
            Some(self.chars[self.pos])
        } else {
            None
        }
    }

    /// Consume the next character when it satisfies the given test; keep
    /// everything in place otherwise.
    fn read_char_if<F: FnOnce(&char) -> bool>(&mut self, pred: F) -> (r: Option<char>)
        requires
            old(self).wf(),
            forall|c: char| #[trigger] pred.requires((&c,)),
        ensures
            final(self).wf(),
            final(self).chars == old(self).chars,
            r matches Some(c) ==> {
                &&& old(self).pos < old(self).chars@.len()
                &&& c == old(self).chars@[old(self).pos as int]
                &&& final(self).curr_char == c
                &&& final(self).pos == old(self).pos + 1
                &&& final(self).loc == spec_loc_step(old(self).loc, old(self).curr_char)
            },
            r is None ==> *final(self) == *old(self),
    {
        if self.pos >= self.chars.len() {
            return None;
        }
        let c = self.chars[self.pos];
        if pred(&c) {
            self.on_newline();
            self.curr_char = c;
            self.pos = self.pos + 1;
            Some(c)
        } else {
            None
        }
    }

    /// Step over whitespace, to the first cursor state holding none.
    fn skip_whitespace(&mut self)
        requires
            old(self).wf(),
        ensures
            final(self).wf(),
            final(self).chars == old(self).chars,
            final(self).loc.source == old(self).loc.source,
            old(self).pos <= final(self).pos,
            (final(self).curr_char, final(self).pos as int, final(self).loc) == ws_skip(
                old(self).chars@,
                old(self).curr_char,
                old(self).pos as int,
                old(self).loc,
            ),
            !is_space_char(final(self).curr_char),
    {
        while crate::parser::is_space_c(self.curr_char)
            invariant
                self.wf(),
                self.chars == old(self).chars,
                self.loc.source == old(self).loc.source,
                old(self).pos <= self.pos,
                ws_skip(self.chars@, self.curr_char, self.pos as int, self.loc) == ws_skip(
                    old(self).chars@,
                    old(self).curr_char,
                    old(self).pos as int,
                    old(self).loc,
                ),
            decreases
                    self.chars@.len() - self.pos + (if is_space_char(self.curr_char) {
                        1int
                    } else {
                        0int
                    }),
        {
            let ghost pre = *self;
            self.read_char();
            proof {
                assert(ws_skip(pre.chars@, pre.curr_char, pre.pos as int, pre.loc) == ws_skip(
                    self.chars@,
                    self.curr_char,
                    self.pos as int,
                    self.loc,
                ));
            }
        }
    }

    /// Scan a word: the cursor character and every following identifier
    /// character, as the keyword that word spells or an identifier holding
    /// exactly it.
    fn read_ident(&mut self) -> (r: Token)
        requires
            old(self).wf(),
        ensures
            final(self).wf(),
            final(self).chars == old(self).chars,
            final(self).loc.source == old(self).loc.source,
            final(self).pos as int == ident_end(old(self).chars@, old(self).pos as int),
            ({
                let end = ident_end(old(self).chars@, old(self).pos as int);
                let w = seq![old(self).curr_char] + old(self).chars@.subrange(
                    old(self).pos as int,
                    end,
                );
                match spec_keyword(w) {
                    Some(t) => r == t,
                    None => r matches Token::Ident(x) && x@ == w,
                }
            }),
            is_word_token(r),
    {
        let ghost pos0 = old(self).pos as int;
        let ghost curr0 = old(self).curr_char;
        let ghost end = ident_end(old(self).chars@, pos0);
        proof {
            lemma_ident_end(old(self).chars@, pos0);
        }
        let mut buf: Vec<char> = Vec::new();
        buf.push(self.curr_char);
        loop
            invariant
                self.wf(),
                self.chars == old(self).chars,
                self.loc.source == old(self).loc.source,
                pos0 <= self.pos <= end,
                end == ident_end(self.chars@, pos0),
                pos0 <= end <= self.chars@.len(),
                forall|k: int| pos0 <= k < end ==> crate::util::is_ident_char(self.chars@[k]),
                end < self.chars@.len() ==> !crate::util::is_ident_char(self.chars@[end]),
                buf@ == seq![curr0] + self.chars@.subrange(pos0, self.pos as int),
            ensures
                self.pos as int == end,
            decreases self.chars@.len() - self.pos,
        {
            let cont = match self.peek() {
                Some(c) => crate::util::is_ident(&c),
                None => false,
            };
            if !cont {
                break ;
            }
            let c = self.read_char();
            buf.push(c);
            proof {
                assert(buf@ =~= seq![curr0] + self.chars@.subrange(pos0, self.pos as int));
            }
        }
        proof {
            assert(self.pos as int == end);
        }
        let word = string_from_chars(buf);
        if str_eq(word.as_str(), "if") {
            Token::If
        } else if str_eq(word.as_str(), "else") {
            Token::Else
        } else if str_eq(word.as_str(), "elif") {
            Token::Elif
        } else if str_eq(word.as_str(), "return") {
            Token::Return
        } else if str_eq(word.as_str(), "while") {
            Token::While
        } else if str_eq(word.as_str(), "for") {
            Token::For
        } else if str_eq(word.as_str(), "break") {
            Token::Break
        } else if str_eq(word.as_str(), "continue") {
            Token::Continue
        } else if str_eq(word.as_str(), "struct") {
            Token::Struct
        } else if str_eq(word.as_str(), "true") {
            Token::True
        } else if str_eq(word.as_str(), "false") {
            Token::False
        } else {
            Token::ident(word)
        }
    }

    /// Scan a numeric literal at the cursor. A literal with a decimal
    /// point or an exponent sign becomes a float token carrying its folded
    /// text; a hexadecimal or plain run of digits becomes an integer token
    /// with its value, or a lexing error when malformed or out of range.
    fn read_num(&mut self) -> (r: Result<Token, Error>)
        requires
            old(self).wf(),
        ensures
            final(self).wf(),
            final(self).chars == old(self).chars,
            final(self).loc.source == old(self).loc.source,
            old(self).pos <= final(self).pos,
            is_digit_char(old(self).curr_char) ==> old(self).pos < final(self).pos
                || final(self).curr_char == '\0',
            ({
                let chars = old(self).chars@;
                let hexy = old(self).curr_char == '0' && (peek_at(chars, old(self).pos as int)
                    == Some('x') || peek_at(chars, old(self).pos as int) == Some('X'));
                if hexy {
                    let a1 = spec_advance(chars, old(self).pos as int);
                    let a2 = spec_advance(chars, a1.1);
                    let sc = hex_scan(chars, HexScan { value: 0, any: false, curr: a2.0, pos: a2.1 });
                    &&& final(self).curr_char == sc.curr
                    &&& final(self).pos as int == sc.pos
                    &&& if !sc.any || sc.value > u64::MAX as int {
                        r matches Err(e) && e matches Error::LexingError(le) && le.kind is InvalidNumberInt
                    } else {
                        r == Ok::<Token, Error>(Token::Int(sc.value as u64))
                    }
                } else {
                    let sc = dec_scan(chars, DecScan {
                        text: Seq::<char>::empty(),
                        value: 0,
                        int_ok: true,
                        is_float: false,
                        has_radix: false,
                        bad_dot: false,
                        curr: old(self).curr_char,
                        pos: old(self).pos as int,
                    });
                    &&& final(self).curr_char == sc.curr
                    &&& final(self).pos as int == sc.pos
                    &&& if sc.bad_dot {
                        r matches Err(e) && e matches Error::LexingError(le) && le.kind is InvalidNumberInt
                    } else if sc.is_float {
                        r matches Ok(t) && t matches Token::Float(x) && x@ == sc.text
                    } else if !sc.int_ok || sc.value > u64::MAX as int {
                        r matches Err(e) && e matches Error::LexingError(le) && le.kind is InvalidNumberInt
                    } else {
                        r == Ok::<Token, Error>(Token::Int(sc.value as u64))
                    }
                }
            }),
    {
        let ghost chars0 = old(self).chars@;
        let hex_prefix = self.curr_char == '0' && match self.peek() {
            Some(c) => c == 'x' || c == 'X',
            None => false,
        };
        if hex_prefix {
            self.read_char();
            self.read_char();
            let ghost hinit = HexScan {
                value: 0,
                any: false,
                curr: self.curr_char,
                pos: self.pos as int,
            };
            let mut v: u64 = 0;
            let mut any = false;
            let mut over = false;
            let ghost mut gv: int = 0;
            loop
                invariant
                    self.wf(),
                    self.chars == old(self).chars,
                    self.loc.source == old(self).loc.source,
                    old(self).pos < self.pos,
                    gv >= 0,
                    !over ==> v as int == gv && gv <= u64::MAX as int,
                    over ==> gv > u64::MAX as int,
                    hex_scan(
                        self.chars@,
                        HexScan { value: gv, any, curr: self.curr_char, pos: self.pos as int },
                    ) == hex_scan(self.chars@, hinit),
                ensures
                    !is_hex_cont(self.curr_char),
                decreases
                        self.chars@.len() - self.pos + (if is_hex_cont(self.curr_char) {
                            1int
                        } else {
                            0int
                        }),
            {
                let ghost pre = HexScan {
                    value: gv,
                    any,
                    curr: self.curr_char,
                    pos: self.pos as int,
                };
                let c = self.curr_char;
                let u = c as u32;
                let d: Option<u8> = if u <= 255 {
                    crate::util::from_hex_digit(c as u8)
                } else {
                    None
                };
                match d {
                    Some(dv) => {
                        any = true;
                        if v > 0xfff_ffff_ffff_ffff {
                            over = true;
                        } else {
                            v = 16 * v + (dv as u64);
                        }
                        proof {
                            gv = gv * 16 + (dv as int);
                        }
                        self.read_char();
                        proof {
                            assert(hex_scan(self.chars@, pre) == hex_scan(
                                self.chars@,
                                HexScan {
                                    value: gv,
                                    any,
                                    curr: self.curr_char,
                                    pos: self.pos as int,
                                },
                            ));
                        }
                    },
                    None => {
                        if c == '_' || c == ',' {
                            self.read_char();
                            proof {
                                assert(hex_scan(self.chars@, pre) == hex_scan(
                                    self.chars@,
                                    HexScan {
                                        value: gv,
                                        any,
                                        curr: self.curr_char,
                                        pos: self.pos as int,
                                    },
                                ));
                            }
                        } else {
                            break ;
                        }
                    },
                }
            }
            proof {
                assert(hex_scan(
                    self.chars@,
                    HexScan { value: gv, any, curr: self.curr_char, pos: self.pos as int },
                ) == HexScan { value: gv, any, curr: self.curr_char, pos: self.pos as int });
            }
            if !any || over {
                return Err(
                    Error::lexing_error(
                        LexError::new(
                            LexErrorKind::InvalidNumberInt(
                                "malformed hexadecimal literal".to_owned(),
                            ),
                            self.loc.dup(),
                        ),
                    ),
                );
            }
            return Ok(Token::Int(v));
        }
        let ghost dinit = DecScan {
            text: Seq::<char>::empty(),
            value: 0,
            int_ok: true,
            is_float: false,
            has_radix: false,
            bad_dot: false,
            curr: self.curr_char,
            pos: self.pos as int,
        };
        let mut text: Vec<char> = Vec::new();
        let mut v: u64 = 0;
        let mut over = false;
        let mut int_ok = true;
        let mut is_float = false;
        let mut has_radix = false;
        let ghost mut gv: int = 0;
        loop
            invariant
                self.wf(),
                self.chars == old(self).chars,
                self.loc.source == old(self).loc.source,
                dinit == (DecScan {
                    text: Seq::<char>::empty(),
                    value: 0,
                    int_ok: true,
                    is_float: false,
                    has_radix: false,
                    bad_dot: false,
                    curr: old(self).curr_char,
                    pos: old(self).pos as int,
                }),
                !(old(self).curr_char == '0' && (peek_at(old(self).chars@, old(self).pos as int)
                    == Some('x') || peek_at(old(self).chars@, old(self).pos as int) == Some(
                    'X',
                ))),
                gv >= 0,
                !over ==> v as int == gv && gv <= u64::MAX as int,
                over ==> gv > u64::MAX as int,
                old(self).pos <= self.pos,
                old(self).pos < self.pos || self.curr_char == '\0' || (self.pos == old(self).pos
                    && self.curr_char == old(self).curr_char),
                dec_scan(
                    self.chars@,
                    DecScan {
                        text: text@,
                        value: gv,
                        int_ok,
                        is_float,
                        has_radix,
                        bad_dot: false,
                        curr: self.curr_char,
                        pos: self.pos as int,
                    },
                ) == dec_scan(self.chars@, dinit),
            ensures
                !dec_cont(self.curr_char, text@.len() > 0 && text@.last() == 'e'),
                old(self).pos < self.pos || self.curr_char == '\0' || !is_digit_char(
                    old(self).curr_char,
                ),
            decreases
                    self.chars@.len() - self.pos + (if dec_cont(
                        self.curr_char,
                        text@.len() > 0 && text@.last() == 'e',
                    ) {
                        1int
                    } else {
                        0int
                    }),
        {
            let ghost pre = DecScan {
                text: text@,
                value: gv,
                int_ok,
                is_float,
                has_radix,
                bad_dot: false,
                curr: self.curr_char,
                pos: self.pos as int,
            };
            let c = self.curr_char;
            let u = c as u32;
            if crate::parser::is_digit_c(c) {
                text.push(c);
                let dv = (u - 48) as u64;
                let grown = match v.checked_mul(10) {
                    Some(x) => x.checked_add(dv),
                    None => None,
                };
                match grown {
                    Some(x) => {
                        v = x;
                    },
                    None => {
                        over = true;
                    },
                }
                proof {
                    gv = gv * 10 + (dv as int);
                }
                self.read_char();
            } else if 97 <= u && u <= 102 {
                int_ok = false;
                text.push(c);
                self.read_char();
            } else if 65 <= u && u <= 70 {
                int_ok = false;
                text.push((((u + 32) as u8) as char));
                self.read_char();
            } else if (c == '+' || c == '-') && text.len() > 0 && text[text.len() - 1] == 'e' {
                is_float = true;
                text.push(c);
                self.read_char();
            } else if c == '.' && !has_radix {
                has_radix = true;
                is_float = true;
                text.push(c);
                self.read_char();
            } else if c == '.' {
                self.read_char();
                proof {
                    assert(dec_scan(self.chars@, dinit) == (DecScan {
                        bad_dot: true,
                        curr: self.curr_char,
                        pos: self.pos as int,
                        ..pre
                    }));
                }
                return Err(
                    Error::lexing_error(
                        LexError::new(
                            LexErrorKind::InvalidNumberInt("misplaced decimal radix".to_owned()),
                            self.loc.dup(),
                        ),
                    ),
                );
            } else if c == '_' || c == ',' {
                self.read_char();
            } else {
                break ;
            }
            proof {
                assert(dec_scan(self.chars@, pre) == dec_scan(
                    self.chars@,
                    DecScan {
                        text: text@,
                        value: gv,
                        int_ok,
                        is_float,
                        has_radix,
                        bad_dot: false,
                        curr: self.curr_char,
                        pos: self.pos as int,
                    },
                ));
            }
        }
        proof {
            assert(dec_scan(
                self.chars@,
                DecScan {
                    text: text@,
                    value: gv,
                    int_ok,
                    is_float,
                    has_radix,
                    bad_dot: false,
                    curr: self.curr_char,
                    pos: self.pos as int,
                },
            ) == (DecScan {
                text: text@,
                value: gv,
                int_ok,
                is_float,
                has_radix,
                bad_dot: false,
                curr: self.curr_char,
                pos: self.pos as int,
            }));
        }
        if is_float {
            return Ok(Token::Float(string_from_chars(text)));
        }
        if !int_ok || over {
            return Err(
                Error::lexing_error(
                    LexError::new(
                        LexErrorKind::InvalidNumberInt("malformed integer literal".to_owned()),
                        self.loc.dup(),
                    ),
                ),
            );
        }
        Ok(Token::Int(v))
    }

    /// The token the cursor pairs with a following character: consume the
    /// follower and take the paired token, or keep the cursor and fall
    /// back.
    fn follow1(&mut self, f1: char, t1: Token, alt: Token) -> (r: Token)
        requires
            old(self).wf(),
        ensures
            final(self).wf(),
            final(self).chars == old(self).chars,
            if peek_at(old(self).chars@, old(self).pos as int) == Some(f1) {
                r == t1 && (final(self).curr_char, final(self).pos as int) == spec_advance(
                    old(self).chars@,
                    old(self).pos as int,
                ) && final(self).loc == spec_loc_step(old(self).loc, old(self).curr_char)
            } else {
                r == alt && *final(self) == *old(self)
            },
    {
        let hit = match self.peek() {
            Some(c) => c == f1,
            None => false,
        };
        if hit {
            self.read_char();
            t1
        } else {
            alt
        }
    }

    /// As `follow1`, with two possible followers.
    fn follow2(&mut self, f1: char, t1: Token, f2: char, t2: Token, alt: Token) -> (r: Token)
        requires
            old(self).wf(),
        ensures
            final(self).wf(),
            final(self).chars == old(self).chars,
            ({
                let p = peek_at(old(self).chars@, old(self).pos as int);
                if p == Some(f1) || p == Some(f2) {
                    r == (if p == Some(f1) {
                        t1
                    } else {
                        t2
                    }) && (final(self).curr_char, final(self).pos as int) == spec_advance(
                        old(self).chars@,
                        old(self).pos as int,
                    ) && final(self).loc == spec_loc_step(old(self).loc, old(self).curr_char)
                } else {
                    r == alt && *final(self) == *old(self)
                }
            }),
    {
        let p = self.peek();
        let hit1 = match p {
            Some(c) => c == f1,
            None => false,
        };
        let hit2 = match p {
            Some(c) => c == f2,
            None => false,
        };
        if hit1 {
            self.read_char();
            t1
        } else if hit2 {
            self.read_char();
            t2
        } else {
            alt
        }
    }

    /// The next token of the text, after skipping whitespace: punctuation
    /// exactly per the table, numbers and words by their scanners, each
    /// with the cursor landing just past the token. The end of the text
    /// yields nothing; a character no token starts with is a lexing error
    /// citing that character and the place it was seen, and the cursor
    /// steps past it so scanning can go on.
    pub fn next(&mut self) -> (r: Option<Result<Token, Error>>)
        requires
            old(self).wf(),
        ensures
            final(self).wf(),
            final(self).chars == old(self).chars,
            final(self).loc.source == old(self).loc.source,
            r is None ==> final(self).curr_char == '\0',
            r matches Some(Err(e)) ==> e is LexingError,
            r is Some ==> old(self).pos < final(self).pos || final(self).curr_char == '\0',
            ({
                let at = ws_skip(
                    old(self).chars@,
                    old(self).curr_char,
                    old(self).pos as int,
                    old(self).loc,
                );
                let c = at.0;
                let p1 = peek_at(old(self).chars@, at.1);
                let p2 = peek_at(old(self).chars@, at.1 + 1);
                let fin = (final(self).curr_char, final(self).pos as int);
                &&& (c == '\0' ==> r is None && fin == (at.0, at.1) && final(self).loc == at.2)
                &&& (match spec_punct(c, p1, p2) {
                    Some(t) => r == Some(Ok::<Token, Error>(t)) && fin == advance_n(
                        old(self).chars@,
                        at.1,
                        punct_len(c, p1, p2),
                    ),
                    None => true,
                })
                &&& (is_digit_char(c) ==> ({
                    let chars = old(self).chars@;
                    let hexy = c == '0' && (p1 == Some('x') || p1 == Some('X'));
                    if hexy {
                        let a1 = spec_advance(chars, at.1);
                        let a2 = spec_advance(chars, a1.1);
                        let sc = hex_scan(
                            chars,
                            HexScan { value: 0, any: false, curr: a2.0, pos: a2.1 },
                        );
                        if !sc.any || sc.value > u64::MAX as int {
                            r matches Some(Err(e)) && e matches Error::LexingError(le) && le.kind
                                is InvalidNumberInt && fin == spec_advance(chars, sc.pos)
                        } else {
                            r == Some(Ok::<Token, Error>(Token::Int(sc.value as u64))) && fin == (
                            sc.curr,
                            sc.pos,
                            )
                        }
                    } else {
                        let sc = dec_scan(
                            chars,
                            DecScan {
                                text: Seq::<char>::empty(),
                                value: 0,
                                int_ok: true,
                                is_float: false,
                                has_radix: false,
                                bad_dot: false,
                                curr: c,
                                pos: at.1,
                            },
                        );
                        if sc.bad_dot {
                            r matches Some(Err(e)) && e matches Error::LexingError(le) && le.kind
                                is InvalidNumberInt && fin == spec_advance(chars, sc.pos)
                        } else if sc.is_float {
                            r matches Some(Ok(t)) && t matches Token::Float(x) && x@ == sc.text
                                && fin == (sc.curr, sc.pos)
                        } else if !sc.int_ok || sc.value > u64::MAX as int {
                            r matches Some(Err(e)) && e matches Error::LexingError(le) && le.kind
                                is InvalidNumberInt && fin == spec_advance(chars, sc.pos)
                        } else {
                            r == Some(Ok::<Token, Error>(Token::Int(sc.value as u64))) && fin == (
                            sc.curr,
                            sc.pos,
                            )
                        }
                    }
                }))
                &&& (c != '\0' && !is_digit_char(c) && spec_punct(c, p1, p2) is None
                    && crate::util::is_ident_char(c) ==> ({
                    let chars = old(self).chars@;
                    let end = ident_end(chars, at.1);
                    let w = seq![c] + chars.subrange(at.1, end);
                    &&& fin == spec_advance(chars, end)
                    &&& match spec_keyword(w) {
                        Some(t) => r == Some(Ok::<Token, Error>(t)),
                        None => r matches Some(Ok(t)) && t matches Token::Ident(x) && x@ == w,
                    }
                }))
                &&& (c != '\0' && spec_punct(c, p1, p2) is None && !crate::util::is_ident_char(c)
                    ==> (r matches Some(Err(e)) && e matches Error::LexingError(le) && le.kind
                    == LexErrorKind::UnexpectedCharacter(c) && crate::location::loc_like(
                    le.loc,
                    at.2,
                ) && fin == spec_advance(old(self).chars@, at.1)))
            }),
    {
        let ghost at = ws_skip(
            old(self).chars@,
            old(self).curr_char,
            old(self).pos as int,
            old(self).loc,
        );
        self.skip_whitespace();
        proof {
            reveal_with_fuel(advance_n, 4);
            lemma_advance_n(self.chars@, self.pos as int, 1);
            lemma_advance_n(self.chars@, self.pos as int, 2);
            lemma_advance_n(self.chars@, self.pos as int, 3);
            lemma_ident_end(self.chars@, self.pos as int);
        }
        let c = self.curr_char;
        if c == '\0' {
            return None;
        }
        let token: Token;
        if c == '{' {
            token = Token::LSquirly;
        } else if c == '(' {
            token = Token::LParen;
        } else if c == '[' {
            token = Token::LBracket;
        } else if c == '}' {
            token = Token::RSquirly;
        } else if c == ')' {
            token = Token::RParen;
        } else if c == ']' {
            token = Token::RBracket;
        } else if c == ',' {
            token = Token::Comma;
        } else if c == ';' {
            token = Token::SemiColon;
        } else if c == '!' {
            token = self.follow1('=', Token::Ne, Token::Not);
        } else if c == '%' {
            token = self.follow1('=', Token::RemAssign, Token::Rem);
        } else if c == '+' {
            token = self.follow1('=', Token::AddAssign, Token::Add);
        } else if c == '~' {
            token = self.follow1('=', Token::BitNotXorAssign, Token::BitNotXor);
        } else if c == '*' {
            token = self.follow2('*', Token::Pow, '=', Token::MulAssign, Token::Mul);
        } else if c == '=' {
            token = self.follow2('=', Token::Eq, '>', Token::FatArrow, Token::Assign);
        } else if c == '-' {
            token = self.follow2('>', Token::Arrow, '=', Token::SubAssign, Token::Sub);
        } else if c == ':' {
            token = self.follow2(':', Token::Decl, '=', Token::DeclAssign, Token::Colon);
        } else if c == '|' {
            token = self.follow2('=', Token::BitOrAssign, '|', Token::LogicOr, Token::BitOr);
        } else if c == '&' {
            token = self.follow2('=', Token::BitAndAssign, '&', Token::LogicAnd, Token::BitAnd);
        } else if c == '.' {
            let range = match self.peek() {
                Some(p) => p == '.',
                None => false,
            };
            if range {
                self.read_char();
                token = self.follow1('=', Token::RangeInc, Token::Range);
            } else {
                token = Token::Dot;
            }
        } else if c == '<' {
            let shift = match self.peek() {
                Some(p) => p == '<',
                None => false,
            };
            if shift {
                self.read_char();
                token = self.follow1('=', Token::ShlAssign, Token::Shl);
            } else {
                token = self.follow1('=', Token::Lte, Token::Lt);
            }
        } else if c == '>' {
            let shift = match self.peek() {
                Some(p) => p == '>',
                None => false,
            };
            if shift {
                self.read_char();
                token = self.follow1('=', Token::ShrAssign, Token::Shr);
            } else {
                token = self.follow1('=', Token::Gte, Token::Gt);
            }
        } else if c == '/' {
            let idiv = match self.peek() {
                Some(p) => p == '/',
                None => false,
            };
            if idiv {
                self.read_char();
                token = self.follow1('=', Token::IDivAssign, Token::IDiv);
            } else {
                token = self.follow1('=', Token::DivAssign, Token::Div);
            }
        } else if c == '^' {
            let xor = match self.peek() {
                Some(p) => p == '^',
                None => false,
            };
            if xor {
                self.read_char();
                token = self.follow1('=', Token::BitXorAssign, Token::BitXor);
            } else {
                token = self.follow1('=', Token::PowAssign, Token::Pow);
            }
        } else if crate::parser::is_digit_c(c) {
            // The number scanner already stands on the character after the
            // literal, so nothing more may be consumed here.
            match self.read_num() {
                Ok(k) => {
                    return Some(Ok(k));
                },
                Err(err) => {
                    self.read_char();
                    return Some(Err(err));
                },
            }
        } else if crate::util::is_ident(&c) {
            token = self.read_ident();
        } else {
            let err = Error::lexing_error(
                LexError::new(LexErrorKind::UnexpectedCharacter(c), self.loc.dup()),
            );
            self.read_char();
            return Some(Err(err));
        }
        self.read_char();
        Some(Ok(token))
    }
}

/// A character that keeps a hexadecimal literal going.
pub open spec fn is_hex_cont(c: char) -> bool {
    (c as u32 <= 255 && spec_from_hex_digit(c as u8) is Some) || c == '_' || c == ','
}

} // verus!
