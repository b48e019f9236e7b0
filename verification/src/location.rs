//! A source location: an optional source name plus a line and column.

use vstd::prelude::*;

verus! {

/// A position in some source text, with the name of that source when known.
#[derive(Debug, Clone, PartialEq)]
pub struct Loc {
    /// The name of the source this location points into, if any.
    pub source: Option<String>,
    /// Zero-based line number.
    pub line: u32,
    /// Zero-based column number.
    pub col: u32,
}

impl Loc {
    /// A location without a source name.
    pub fn new(line: u32, col: u32) -> (r: Self)
        ensures
            r.source is None,
            r.line == line,
            r.col == col,
    {
        Loc { source: None, line, col }
    }

    /// The same location, pointing into the named source.
    pub fn set_source(self, source: String) -> (r: Self)
        ensures
            r.source == Some(source),
            r.line == self.line,
            r.col == self.col,
    {
        Loc { source: Some(source), line: self.line, col: self.col }
    }

    /// The source name, if one was set.
    pub fn source(&self) -> (r: Option<&String>)
        ensures
            r is Some <==> self.source is Some,
            r matches Some(s) ==> self.source matches Some(t) && *s == t,
    {
        self.source.as_ref()
    }

    /// The line number.
    pub fn line(&self) -> (r: u32)
        ensures
            r == self.line,
    {
        self.line
    }

    /// The column number.
    pub fn col(&self) -> (r: u32)
        ensures
            r == self.col,
    {
        self.col
    }

    /// Step one column to the right.
    pub fn inc_col(&mut self)
        requires
            old(self).col < u32::MAX,
        ensures
            final(self).col == old(self).col + 1,
            final(self).line == old(self).line,
            final(self).source == old(self).source,
    {
        self.col = self.col + 1;
    }

    /// Step one line down.
    pub fn inc_line(&mut self)
        requires
            old(self).line < u32::MAX,
        ensures
            final(self).line == old(self).line + 1,
            final(self).col == old(self).col,
            final(self).source == old(self).source,
    {
        self.line = self.line + 1;
    }

    /// Move to the given column.
    pub fn set_col(&mut self, col: u32)
        ensures
            final(self).col == col,
            final(self).line == old(self).line,
            final(self).source == old(self).source,
    {
        self.col = col;
    }

    /// Move to the given line.
    pub fn set_line(&mut self, line: u32)
        ensures
            final(self).line == line,
            final(self).col == old(self).col,
            final(self).source == old(self).source,
    {
        self.line = line;
    }

    /// An identical rendering of this location: the same numbers and the
    /// same source name.
    pub fn dup(&self) -> (r: Loc)
        ensures
            loc_like(r, *self),
    {
        match self.source.as_ref() {
            Some(s) => Loc { source: Some(s.clone()), line: self.line, col: self.col },
            None => Loc { source: None, line: self.line, col: self.col },
        }
    }

    /// Render as `line:col`, prefixed with the source name when present.
    pub fn to_text(&self) -> (r: String)
        ensures
            r@ == loc_text(*self),
    {
        let mut out = String::new();
        proof {
            reveal_strlit(":");
            assert((":")@ =~= seq![':']);
        }
        match self.source.as_ref() {
            Some(s) => {
                out.append(s.as_str());
                out.append(":");
            },
            None => {},
        }
        let line = crate::value::u32_text(self.line);
        out.append(line.as_str());
        out.append(":");
        let col = crate::value::u32_text(self.col);
        out.append(col.as_str());
        proof {
            assert(out@ =~= loc_text(*self));
        }
        out
    }
}

/// Two locations that render alike: equal numbers, and the same source
/// name text.
pub open spec fn loc_like(a: Loc, b: Loc) -> bool {
    &&& a.line == b.line
    &&& a.col == b.col
    &&& (a.source is Some <==> b.source is Some)
    &&& (a.source matches Some(s) ==> b.source matches Some(t) && s@ == t@)
}

/// The text of a location: `line:col`, with the source name and one more
/// separator in front when the source is known.
pub open spec fn loc_text(l: Loc) -> Seq<char> {
    let tail = crate::value::dec_text(l.line as int) + seq![':'] + crate::value::dec_text(
        l.col as int,
    );
    match l.source {
        Some(s) => s@ + seq![':'] + tail,
        None => tail,
    }
}

impl Default for Loc {
    /// The origin of an unnamed source.
    fn default() -> (r: Self)
        ensures
            r.source is None,
            r.line == 0,
            r.col == 0,
    {
        Loc { source: None, line: 0, col: 0 }
    }
}

} // verus!
