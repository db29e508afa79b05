//! Line breaks: the blank lines that end a file, `(\n[^\S\r\n]*)+$`.
use vstd::prelude::*;

use crate::chars::{is_inline_space, spec_is_inline_space};
use crate::document::Token;

verus! {

/// The blank lines at the end of a file.
#[derive(Clone, Copy, PartialEq, Eq, Debug, Structural)]
pub struct LineBreak {
    pub location: Token,
    /// The number of newlines.
    pub length: usize,
}

impl LineBreak {
    /// HTML of the break, written where a paragraph is open
    /// (`in_paragraph`) or not: it closes the open paragraph, and is
    /// nothing elsewhere. Also gives whether a paragraph is open after it.
    pub fn compile(&self, in_paragraph: bool) -> (r: (String, bool))
        ensures
            r.0@ == if in_paragraph { "</p>"@ } else { Seq::<char>::empty() },
            !r.1,
    {
        if in_paragraph {
            (String::from_str("</p>"), false)
        } else {
            (String::new(), false)
        }
    }
}

/// A character of a blank tail: a newline or a space that is not `\r`.
pub open spec fn spec_blank_char(c: char) -> bool {
    c == '\n' || spec_is_inline_space(c)
}

/// Whether `(\n[^\S\r\n]*)+$` matches at `p`: a newline, and only newlines
/// and spaces other than `\r` up to the end.
pub open spec fn spec_break_at(s: Seq<char>, p: int) -> bool {
    &&& 0 <= p < s.len()
    &&& s[p] == '\n'
    &&& forall|k: int| p <= k < s.len() ==> spec_blank_char(#[trigger] s[k])
}

/// The number of newlines in `s`.
pub open spec fn spec_count_newlines(s: Seq<char>) -> nat
    decreases s.len(),
{
    if s.len() == 0 {
        0
    } else {
        spec_count_newlines(s.drop_last()) + if s.last() == '\n' { 1nat } else { 0nat }
    }
}

/// The rule for the blank lines that end a file.
pub struct BreakRule {}

impl BreakRule {
    pub fn new() -> (r: BreakRule) {
        BreakRule {  }
    }

    /// The first position at or after `from` where the rule matches.
    pub fn find(&self, s: &[char], from: usize) -> (r: Option<usize>)
        ensures
            match r {
                Some(p) => from <= p && spec_break_at(s@, p as int)
                    && forall|q: int| from <= q < p ==> !spec_break_at(s@, q),
                None => forall|q: int| from <= q ==> !spec_break_at(s@, q),
            },
    {
        let n = s.len();
        let mut t = n;
        while t > 0 && (s[t - 1] == '\n' || is_inline_space(s[t - 1]))
            invariant
                t <= n == s@.len(),
                forall|k: int| t <= k < n ==> spec_blank_char(#[trigger] s@[k]),
            decreases t,
        {
            t -= 1;
        }
        let mut p = if from > t { from } else { t };
        while p < n
            invariant
                t <= p,
                from <= p,
                n == s@.len(),
                forall|k: int| t <= k < n ==> spec_blank_char(#[trigger] s@[k]),
                t > 0 ==> !spec_blank_char(s@[t - 1]),
                forall|q: int| from <= q < p ==> !spec_break_at(s@, q),
            decreases n - p,
        {
            if s[p] == '\n' {
                return Some(p);
            }
            p += 1;
        }
        None
    }

    /// The line break matched at `p`.
    pub fn on_match(&self, s: &[char], p: usize) -> (r: LineBreak)
        requires
            spec_break_at(s@, p as int),
        ensures
            r.location == (Token { start: p, end: s@.len() as usize }),
            r.length == spec_count_newlines(s@.subrange(p as int, s@.len() as int)),
    {
        let mut count: usize = 0;
        let mut i = p;
        while i < s.len()
            invariant
                p <= i <= s@.len(),
                count == spec_count_newlines(s@.subrange(p as int, i as int)),
                count <= i - p,
            decreases s@.len() - i,
        {
            proof {
                assert(s@.subrange(p as int, i + 1).drop_last() =~= s@.subrange(p as int, i as int));
            }
            if s[i] == '\n' {
                count += 1;
            }
            i += 1;
        }
        LineBreak { location: Token { start: p, end: s.len() }, length: count }
    }
}

} // verus!
