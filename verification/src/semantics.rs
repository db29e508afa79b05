//! Semantic tokens: the highlighting information that the rules attach to
//! ranges of a source, and their encoding as LSP semantic tokens.
use vstd::prelude::*;

use crate::chars::{spec_utf16_len, utf16_len};
use crate::scan::{line_end, spec_line_end};

verus! {

/// Kinds of semantic tokens produced by the rules.
#[derive(Clone, Copy, PartialEq, Eq, Debug, Structural)]
pub enum SemKind {
    StyleMarker,
    SectionHeading,
    SectionReference,
    SectionKind,
    SectionName,
    RawSep,
    RawPropsSep,
    RawProps,
    RawContent,
    RawKind,
    ReferenceOperator,
    ReferenceLinkSep,
    ReferenceDoc,
    ReferenceDocSep,
    ReferenceLink,
    ReferencePropsSep,
    LinkDisplaySep,
    LinkUrlSep,
    LinkUrl,
    ListBullet,
    ListPropsSep,
    PropName,
    PropEqual,
    PropValue,
    PropComma,
    LayoutSep,
    LayoutToken,
    LayoutPropsSep,
    LayoutProps,
    LayoutType,
    ScriptSep,
    ScriptKernelSep,
    ScriptKernel,
    ScriptKind,
    TexSep,
    TexPropsSep,
    TexContent,
    MediaSep,
    MediaRefname,
    MediaUriSep,
    MediaUri,
    MediaPropsSep,
    InternalLinkRefSep,
    InternalLinkRef,
    InternalLinkDisplaySep,
    LuaDelimiter,
    LuaPropsSep,
    LuaKind,
    LuaContent,
    LuaCommand,
}

/// A token over the characters `start..end` of a source.
#[derive(Clone, Copy, PartialEq, Eq, Debug, Structural)]
pub struct SemToken {
    pub start: usize,
    pub end: usize,
    pub kind: SemKind,
}

/// Tokens ordered by their start; tokens with equal starts keep the order in
/// which they were added.
pub struct Semantics {
    pub tokens: Vec<SemToken>,
}

pub open spec fn sorted_by_start(t: Seq<SemToken>) -> bool {
    forall|i: int, j: int| 0 <= i < j < t.len() ==> t[i].start <= t[j].start
}

/// Where a token starting at `start` goes in `t`: after every token that
/// starts at or before it.
pub open spec fn spec_insert_pos(t: Seq<SemToken>, start: usize) -> int
    decreases t.len(),
{
    if t.len() == 0 {
        0
    } else if t.last().start > start {
        spec_insert_pos(t.drop_last(), start)
    } else {
        t.len() as int
    }
}

/// `t` with the token `x` added in its place.
pub open spec fn spec_added(t: Seq<SemToken>, x: SemToken) -> Seq<SemToken> {
    t.insert(spec_insert_pos(t, x.start), x)
}

/// `t` with the token of kind `kind` over `start..end` added.
pub open spec fn spec_add_token(t: Seq<SemToken>, start: int, end: int, kind: SemKind) -> Seq<SemToken> {
    spec_added(t, SemToken { start: start as usize, end: end as usize, kind })
}

/// `t` with the tokens of `xs` added one after the other (a `None` adds
/// nothing).
pub open spec fn spec_added_all(t: Seq<SemToken>, xs: Seq<Option<SemToken>>) -> Seq<SemToken>
    decreases xs.len(),
{
    if xs.len() == 0 {
        t
    } else {
        let rest = spec_added_all(t, xs.drop_last());
        match xs.last() {
            Some(x) => spec_added(rest, x),
            None => rest,
        }
    }
}

proof fn lemma_insert_pos(t: Seq<SemToken>, start: usize, k: int)
    requires
        0 <= k <= t.len(),
        k > 0 ==> t[k - 1].start <= start,
        forall|i: int| k <= i < t.len() ==> t[i].start > start,
    ensures
        spec_insert_pos(t, start) == k,
    decreases t.len(),
{
    if t.len() > k {
        lemma_insert_pos(t.drop_last(), start, k);
    }
}

impl Semantics {
    pub open spec fn wf(&self) -> bool {
        sorted_by_start(self.tokens@)
    }

    pub fn new() -> (r: Semantics)
        ensures
            r.tokens@ == Seq::<SemToken>::empty(),
            r.wf(),
    {
        Semantics { tokens: Vec::new() }
    }

    /// Adds a token for `start..end`, after every token that starts at or
    /// before `start`.
    pub fn add(&mut self, start: usize, end: usize, kind: SemKind)
        requires
            old(self).wf(),
        ensures
            final(self).wf(),
            exists|k: int|
                0 <= k <= old(self).tokens@.len() && final(self).tokens@ == old(self).tokens@.insert(
                    k,
                    SemToken { start, end, kind },
                ) && (forall|i: int| 0 <= i < k ==> old(self).tokens@[i].start <= start) && (
                forall|i: int| k <= i < old(self).tokens@.len() ==> old(self).tokens@[i].start
                    > start),
            final(self).tokens@ == spec_added(old(self).tokens@, SemToken { start, end, kind }),
    {
        let t = SemToken { start, end, kind };
        let mut k = self.tokens.len();
        while k > 0 && self.tokens[k - 1].start > start
            invariant
                0 <= k <= self.tokens@.len(),
                sorted_by_start(self.tokens@),
                forall|i: int| k <= i < self.tokens@.len() ==> self.tokens@[i].start > start,
            decreases k,
        {
            k -= 1;
        }
        let ghost before = self.tokens@;
        proof {
            assert forall|i: int| 0 <= i < k implies before[i].start <= start by {
                if k > 0 {
                    assert(before[i].start <= before[k - 1].start);
                }
            }
        }
        proof {
            lemma_insert_pos(before, start, k as int);
        }
        self.tokens.insert(k, t);
        proof {
            let after = self.tokens@;
            assert forall|i: int, j: int| 0 <= i < j < after.len() implies after[i].start
                <= after[j].start by {
                if j < k {
                    assert(after[i] == before[i] && after[j] == before[j]);
                } else if j == k {
                    assert(after[i] == before[i]);
                } else if i < k {
                    assert(after[i] == before[i] && after[j] == before[j - 1]);
                } else if i == k {
                    assert(after[j] == before[j - 1]);
                } else {
                    assert(after[i] == before[i - 1] && after[j] == before[j - 1]);
                }
            }
        }
    }
}

/// Line and UTF-16 column of index `p` of `s`.
pub open spec fn spec_pos(s: Seq<char>, p: int) -> (nat, nat)
    decreases p,
{
    if p <= 0 || p > s.len() {
        (0, 0)
    } else {
        let (l, c) = spec_pos(s, p - 1);
        if s[p - 1] == '\n' {
            (l + 1, 0)
        } else {
            (l, c + spec_utf16_len(s[p - 1]))
        }
    }
}

/// Number of UTF-16 code units of `s[a..b]`.
pub open spec fn spec_utf16_count(s: Seq<char>, a: int, b: int) -> nat
    decreases b - a,
{
    if a >= b || a < 0 || b > s.len() {
        0
    } else {
        spec_utf16_count(s, a, b - 1) + spec_utf16_len(s[b - 1])
    }
}

/// A token that lies within one line, by line, column and length.
#[derive(Clone, Copy, PartialEq, Eq, Debug, Structural)]
pub struct LinePiece {
    pub line: usize,
    pub col: usize,
    pub len: usize,
    pub kind: SemKind,
}

/// The pieces of the token `a..b`, one for each line it covers.
pub open spec fn spec_pieces(s: Seq<char>, a: int, b: int, kind: SemKind) -> Seq<LinePiece>
    decreases b - a,
{
    if a < 0 || a >= b || b > s.len() {
        Seq::empty()
    } else {
        let le = spec_line_end(s, a);
        let e = if le < b { le } else { b };
        let piece = LinePiece {
            line: spec_pos(s, a).0 as usize,
            col: spec_pos(s, a).1 as usize,
            len: spec_utf16_count(s, a, e) as usize,
            kind,
        };
        if e >= b {
            seq![piece]
        } else {
            proof {
                crate::scan::lemma_line_end(s, a);
            }
            seq![piece] + spec_pieces(s, e + 1, b, kind)
        }
    }
}

/// Pieces of all tokens, in the order of the tokens.
pub open spec fn spec_all_pieces(s: Seq<char>, t: Seq<SemToken>) -> Seq<LinePiece>
    decreases t.len(),
{
    if t.len() == 0 {
        Seq::empty()
    } else {
        spec_all_pieces(s, t.drop_last()) + spec_pieces(
            s,
            t.last().start as int,
            t.last().end as int,
            t.last().kind,
        )
    }
}

/// An LSP semantic token: position relative to the previous token.
#[derive(Clone, Copy, PartialEq, Eq, Debug, Structural)]
pub struct LspToken {
    pub delta_line: usize,
    pub delta_start: usize,
    pub length: usize,
    pub kind: SemKind,
}

pub open spec fn sat_sub(a: usize, b: usize) -> usize {
    if a >= b { (a - b) as usize } else { 0 }
}

/// Relative encoding of `p` after a piece at `(line, col)`.
pub open spec fn spec_delta(p: LinePiece, line: usize, col: usize) -> LspToken {
    LspToken {
        delta_line: sat_sub(p.line, line),
        delta_start: if p.line == line { sat_sub(p.col, col) } else { p.col },
        length: p.len,
        kind: p.kind,
    }
}

/// Relative encoding of all pieces, the first relative to line 0, column 0.
pub open spec fn spec_encode(p: Seq<LinePiece>) -> Seq<LspToken>
    decreases p.len(),
{
    if p.len() == 0 {
        Seq::empty()
    } else if p.len() == 1 {
        seq![spec_delta(p[0], 0, 0)]
    } else {
        spec_encode(p.drop_last()) + seq![spec_delta(p.last(), p[p.len() - 2].line, p[p.len() - 2].col)]
    }
}

/// Line and column of index `p` of `s`.
pub fn pos_of(s: &[char], p: usize) -> (r: (usize, usize))
    requires
        p <= s@.len(),
        s@.len() <= usize::MAX / 2,
    ensures
        r.0 as nat == spec_pos(s@, p as int).0,
        r.1 as nat == spec_pos(s@, p as int).1,
{
    let mut line: usize = 0;
    let mut col: usize = 0;
    let mut i: usize = 0;
    while i < p
        invariant
            0 <= i <= p <= s@.len(),
            s@.len() <= usize::MAX / 2,
            line as nat == spec_pos(s@, i as int).0,
            col as nat == spec_pos(s@, i as int).1,
            line <= i,
            col <= 2 * i,
        decreases p - i,
    {
        if s[i] == '\n' {
            line += 1;
            col = 0;
        } else {
            col += utf16_len(s[i]);
        }
        i += 1;
    }
    (line, col)
}

/// UTF-16 length of `s[a..b]`.
pub fn utf16_count(s: &[char], a: usize, b: usize) -> (r: usize)
    requires
        a <= b <= s@.len(),
        s@.len() <= usize::MAX / 2,
    ensures
        r as nat == spec_utf16_count(s@, a as int, b as int),
{
    let mut n: usize = 0;
    let mut i = a;
    while i < b
        invariant
            a <= i <= b <= s@.len(),
            s@.len() <= usize::MAX / 2,
            n as nat == spec_utf16_count(s@, a as int, i as int),
            n <= 2 * (i - a),
        decreases b - i,
    {
        n += utf16_len(s[i]);
        i += 1;
    }
    n
}

/// Appends the pieces of the token `a..b` to `out`.
pub fn push_pieces(s: &[char], a: usize, b: usize, kind: SemKind, out: &mut Vec<LinePiece>)
    requires
        b <= s@.len(),
        s@.len() <= usize::MAX / 2,
    ensures
        final(out)@ == old(out)@ + spec_pieces(s@, a as int, b as int, kind),
    decreases b - a,
{
    if a >= b {
        return;
    }
    let le = line_end(s, a);
    let e = if le < b { le } else { b };
    let (line, col) = pos_of(s, a);
    let len = utf16_count(s, a, e);
    out.push(LinePiece { line, col, len, kind });
    if e < b {
        push_pieces(s, e + 1, b, kind, out);
        assert(final(out)@ =~= old(out)@ + spec_pieces(s@, a as int, b as int, kind));
    }
}

/// The LSP encoding of the tokens of `sems` over the source `s`.
pub fn encode(s: &[char], sems: &Semantics) -> (r: Vec<LspToken>)
    requires
        s@.len() <= usize::MAX / 2,
        forall|i: int| 0 <= i < sems.tokens@.len() ==> #[trigger] sems.tokens@[i].end <= s@.len(),
    ensures
        r@ == spec_encode(spec_all_pieces(s@, sems.tokens@)),
{
    let mut pieces: Vec<LinePiece> = Vec::new();
    let mut i: usize = 0;
    while i < sems.tokens.len()
        invariant
            0 <= i <= sems.tokens@.len(),
            forall|j: int| 0 <= j < sems.tokens@.len() ==> #[trigger] sems.tokens@[j].end <= s@.len(),
            s@.len() <= usize::MAX / 2,
            pieces@ == spec_all_pieces(s@, sems.tokens@.subrange(0, i as int)),
        decreases sems.tokens@.len() - i,
    {
        let t = sems.tokens[i];
        push_pieces(s, t.start, t.end, t.kind, &mut pieces);
        proof {
            let sub = sems.tokens@.subrange(0, i + 1);
            assert(sub.drop_last() =~= sems.tokens@.subrange(0, i as int));
        }
        i += 1;
    }
    assert(sems.tokens@.subrange(0, sems.tokens@.len() as int) =~= sems.tokens@);
    encode_pieces(&pieces)
}

fn delta(p: LinePiece, line: usize, col: usize) -> (r: LspToken)
    ensures
        r == spec_delta(p, line, col),
{
    LspToken {
        delta_line: if p.line >= line { p.line - line } else { 0 },
        delta_start: if p.line == line {
            if p.col >= col { p.col - col } else { 0 }
        } else {
            p.col
        },
        length: p.len,
        kind: p.kind,
    }
}

/// Relative encoding of `p` (see `spec_encode`).
pub fn encode_pieces(p: &Vec<LinePiece>) -> (r: Vec<LspToken>)
    ensures
        r@ == spec_encode(p@),
{
    let mut r: Vec<LspToken> = Vec::new();
    let mut i: usize = 0;
    while i < p.len()
        invariant
            0 <= i <= p@.len(),
            r@ == spec_encode(p@.subrange(0, i as int)),
        decreases p@.len() - i,
    {
        let (line, col) = if i == 0 { (0usize, 0usize) } else { (p[i - 1].line, p[i - 1].col) };
        r.push(delta(p[i], line, col));
        proof {
            let sub = p@.subrange(0, i + 1);
            assert(sub.drop_last() =~= p@.subrange(0, i as int));
            if i == 0 {
                assert(r@ =~= spec_encode(sub));
            }
        }
        i += 1;
    }
    assert(p@.subrange(0, p@.len() as int) =~= p@);
    r
}

/// Absolute positions recovered from the relative encoding.
pub open spec fn spec_decode(t: Seq<LspToken>) -> Seq<(int, int)>
    decreases t.len(),
{
    if t.len() == 0 {
        Seq::empty()
    } else {
        let prev = spec_decode(t.drop_last());
        let (l, c) = if prev.len() == 0 { (0int, 0int) } else { prev.last() };
        let d = t.last();
        prev.push(
            if d.delta_line == 0 {
                (l, c + d.delta_start)
            } else {
                (l + d.delta_line, d.delta_start as int)
            },
        )
    }
}

/// Pieces in source order: by line, then by column.
pub open spec fn pieces_ordered(p: Seq<LinePiece>) -> bool {
    forall|i: int, j: int|
        #![trigger p[i], p[j]]
        0 <= i && j == i + 1 && j < p.len() ==> (p[i].line < p[j].line || (p[i].line == p[j].line
            && p[i].col <= p[j].col))
}

/// Decoding the relative encoding of pieces that are in source order gives
/// back the line and column of every piece.
pub proof fn law_encode_decode(p: Seq<LinePiece>)
    requires
        pieces_ordered(p),
    ensures
        spec_decode(spec_encode(p)).len() == p.len(),
        forall|i: int|
            0 <= i < p.len() ==> #[trigger] spec_decode(spec_encode(p))[i] == (
            p[i].line as int,
            p[i].col as int,
        ),
    decreases p.len(),
{
    if p.len() == 0 {
    } else if p.len() == 1 {
        let e = spec_encode(p);
        assert(e.drop_last() =~= Seq::<LspToken>::empty());
        assert(spec_decode(Seq::<LspToken>::empty()) =~= Seq::<(int, int)>::empty());
        assert(spec_decode(e).len() == 1);
        assert(spec_decode(e)[0] == (p[0].line as int, p[0].col as int));
    } else {
        let q = p.drop_last();
        assert(pieces_ordered(q)) by {
            assert forall|i: int, j: int|
                #![trigger q[i], q[j]]
                0 <= i && j == i + 1 && j < q.len() implies (q[i].line < q[j].line || (q[i].line
                    == q[j].line && q[i].col <= q[j].col)) by {
                assert(q[i] == p[i] && q[j] == p[j]);
            }
        }
        law_encode_decode(q);
        let e = spec_encode(p);
        assert(e.drop_last() =~= spec_encode(q));
        let prev = spec_decode(e.drop_last());
        assert(prev.last() == (q[q.len() - 1].line as int, q[q.len() - 1].col as int));
        let a = p[p.len() - 2];
        let b = p[p.len() - 1];
        assert(a.line < b.line || (a.line == b.line && a.col <= b.col));
        assert(e.last() == spec_delta(b, a.line, a.col));
        assert(spec_decode(e).len() == p.len());
        assert(spec_decode(e).last() == (b.line as int, b.col as int));
        assert forall|i: int| 0 <= i < p.len() implies #[trigger] spec_decode(e)[i] == (
            p[i].line as int,
            p[i].col as int,
        ) by {
            if i < p.len() - 1 {
                assert(spec_decode(e)[i] == prev[i]);
                assert(q[i] == p[i]);
            }
        }
    }
}

/// The LSP encoding of the tokens of `sems` over `s`. A token that does not
/// lie within `s` yields no piece.
pub fn lsp_tokens(s: &[char], sems: &Semantics) -> (r: Vec<LspToken>)
    requires
        s@.len() <= usize::MAX / 2,
    ensures
        r@ == spec_encode(spec_all_pieces(s@, sems.tokens@)),
{
    let n = s.len();
    let mut kept: Vec<SemToken> = Vec::new();
    let mut i: usize = 0;
    while i < sems.tokens.len()
        invariant
            0 <= i <= sems.tokens@.len(),
            n == s@.len(),
            spec_all_pieces(s@, kept@) == spec_all_pieces(s@, sems.tokens@.subrange(0, i as int)),
            forall|k: int| 0 <= k < kept@.len() ==> #[trigger] kept@[k].end <= s@.len(),
        decreases sems.tokens@.len() - i,
    {
        let t: SemToken = sems.tokens[i];
        proof {
            let sub = sems.tokens@.subrange(0, i + 1);
            assert(sub.drop_last() =~= sems.tokens@.subrange(0, i as int));
            assert(sub.last() == t);
        }
        if t.end <= n {
            let ghost before = kept@;
            kept.push(t);
            proof {
                assert(kept@.drop_last() =~= before);
            }
        } else {
            proof {
                assert(spec_pieces(s@, t.start as int, t.end as int, t.kind) =~= Seq::<LinePiece>::empty());
                assert(spec_all_pieces(s@, kept@) + Seq::<LinePiece>::empty() =~= spec_all_pieces(s@, kept@));
            }
        }
        i += 1;
    }
    assert(sems.tokens@.subrange(0, i as int) =~= sems.tokens@);
    let filtered = Semantics { tokens: kept };
    encode(s, &filtered)
}

} // verus!
