//! Paragraphs: text and inline elements between blank lines.
use vstd::prelude::*;

use crate::compile::push_str;
use crate::document::{spec_kind, spec_location, ElemKind, Element, Token};
use crate::interop::chars_to_string;

verus! {

/// A paragraph and the inline elements it holds.
pub struct Paragraph {
    pub location: Token,
    pub content: Vec<Element>,
}

impl Paragraph {
    pub fn is_empty(&self) -> (r: bool)
        ensures
            r == (self.content@.len() == 0),
    {
        self.content.len() == 0
    }

    /// The last element of the paragraph that satisfies `predicate`.
    pub fn find_back<P: Fn(&Element) -> bool>(&self, predicate: P) -> (r: Option<&Element>)
        requires
            forall|i: int| 0 <= i < self.content@.len() ==> predicate.requires((&self.content@[i],)),
        ensures
            match r {
                Some(e) => exists|i: int|
                    0 <= i < self.content@.len() && *e == self.content@[i] && predicate.ensures(
                        (&self.content@[i],),
                        true,
                    ) && forall|j: int|
                        i < j < self.content@.len() ==> predicate.ensures((&self.content@[j],), false),
                None => forall|j: int|
                    0 <= j < self.content@.len() ==> predicate.ensures((&self.content@[j],), false),
            },
    {
        let mut i = self.content.len();
        while i > 0
            invariant
                0 <= i <= self.content@.len(),
                forall|k: int| 0 <= k < self.content@.len() ==> predicate.requires((&self.content@[k],)),
                forall|j: int| i <= j < self.content@.len() ==> predicate.ensures((&self.content@[j],), false),
            decreases i,
        {
            let e = &self.content[i - 1];
            if predicate(e) {
                return Some(e);
            }
            i -= 1;
        }
        None
    }

    /// Extends the paragraph to the end of `elem`, then adds `elem` at its
    /// end; a block element is refused (the paragraph is still extended).
    pub fn push(&mut self, elem: Element) -> (r: Result<(), String>)
        ensures
            final(self).location == (Token { start: old(self).location.start, end: spec_location(elem).end }),
            spec_kind(elem) == ElemKind::Block ==> r is Err && final(self).content@ == old(self).content@,
            spec_kind(elem) != ElemKind::Block ==> r is Ok && final(self).content@ == old(self).content@.push(elem),
            r matches Err(m) ==> m@ == "Attempted to push block element inside a paragraph"@,
    {
        self.location = Token { start: self.location.start, end: elem.location().end };
        if elem.kind() == ElemKind::Block {
            return Err(String::from_str("Attempted to push block element inside a paragraph"));
        }
        self.content.push(elem);
        Ok(())
    }

    /// HTML of the paragraph whose elements give `content`: nothing for an
    /// empty paragraph.
    pub fn compile(&self, content: &str) -> (r: String)
        ensures
            r@ == if self.content@.len() == 0 { Seq::<char>::empty() } else { "<p>"@ + content@ + "</p>"@ },
    {
        proof { reveal_strlit("<p>"); reveal_strlit("</p>"); }
        if self.content.len() == 0 {
            return String::new();
        }
        let mut out: Vec<char> = Vec::new();
        push_str(&mut out, "<p>");
        push_str(&mut out, content);
        push_str(&mut out, "</p>");
        chars_to_string(out.as_slice())
    }

    /// Whether the last element of the paragraph that takes room is inline.
    pub fn ends_inline(&self) -> (r: bool)
        ensures
            r == spec_ends_inline(self.content@),
    {
        let mut i = self.content.len();
        assert(self.content@.subrange(0, i as int) =~= self.content@);
        while i > 0
            invariant
                0 <= i <= self.content@.len(),
                spec_ends_inline(self.content@) == spec_ends_inline(self.content@.subrange(0, i as int)),
            decreases i,
        {
            let k = self.content[i - 1].kind();
            proof {
                let sub = self.content@.subrange(0, i as int);
                assert(sub.drop_last() =~= self.content@.subrange(0, i - 1));
            }
            if k != ElemKind::Invisible {
                return k == ElemKind::Inline;
            }
            i -= 1;
        }
        false
    }
}

/// Whether the last element of `c` that is not invisible is inline.
pub open spec fn spec_ends_inline(c: Seq<Element>) -> bool
    decreases c.len(),
{
    if c.len() == 0 {
        false
    } else if spec_kind(c.last()) != ElemKind::Invisible {
        spec_kind(c.last()) == ElemKind::Inline
    } else {
        spec_ends_inline(c.drop_last())
    }
}

/// A paragraph break: two newlines or more, starting at `p`. Result: the
/// end of the run of newlines.
pub open spec fn spec_break_at(s: Seq<char>, p: int) -> Option<int> {
    if 0 <= p && p + 1 < s.len() && s[p] == '\n' && s[p + 1] == '\n' {
        Some(spec_newline_run_end(s, p))
    } else {
        None
    }
}

/// End of the run of newlines that starts at `p`.
pub open spec fn spec_newline_run_end(s: Seq<char>, p: int) -> int
    decreases s.len() - p,
{
    if 0 <= p < s.len() && s[p] == '\n' {
        spec_newline_run_end(s, p + 1)
    } else {
        p
    }
}

proof fn lemma_newline_run_end(s: Seq<char>, p: int)
    requires
        0 <= p <= s.len(),
    ensures
        p <= spec_newline_run_end(s, p) <= s.len(),
    decreases s.len() - p,
{
    if p < s.len() && s[p] == '\n' {
        lemma_newline_run_end(s, p + 1);
    }
}

/// The rule that separates paragraphs.
pub struct ParagraphRule {}

impl ParagraphRule {
    pub fn new() -> (r: ParagraphRule) {
        ParagraphRule {  }
    }

    /// The first paragraph break at or after `from`: its start and end.
    pub fn find(&self, s: &[char], from: usize) -> (r: Option<(usize, usize)>)
        ensures
            match r {
                Some((p, e)) => from <= p && spec_break_at(s@, p as int) == Some(e as int) && p + 2
                    <= e <= s@.len() && forall|q: int| from <= q < p ==> spec_break_at(s@, q) is None,
                None => forall|q: int| from <= q ==> spec_break_at(s@, q) is None,
            },
    {
        let mut p = from;
        while p < s.len()
            invariant
                from <= p,
                forall|q: int| from <= q < p ==> spec_break_at(s@, q) is None,
            decreases s@.len() - p,
        {
            if p + 1 < s.len() && s[p] == '\n' && s[p + 1] == '\n' {
                let mut e = p;
                proof {
                    lemma_newline_run_end(s@, p as int);
                }
                while e < s.len() && s[e] == '\n'
                    invariant
                        p <= e <= s@.len(),
                        spec_newline_run_end(s@, p as int) == spec_newline_run_end(s@, e as int),
                    decreases s@.len() - e,
                {
                    e += 1;
                }
                assert(s@[p + 1] == '\n');
                assert(spec_newline_run_end(s@, p as int) == spec_newline_run_end(s@, p + 1));
                assert(spec_newline_run_end(s@, p + 1) == spec_newline_run_end(s@, p + 2));
                proof {
                    lemma_newline_run_end(s@, p + 2);
                }
                return Some((p, e));
            }
            p += 1;
        }
        None
    }
}

} // verus!
