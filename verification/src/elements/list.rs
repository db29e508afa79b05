//! Lists: lines that start with whitespace then a run of `*` (unnumbered)
//! and `-` (numbered) bullets, one per nesting level.
use vstd::prelude::*;

pub mod elem;

use crate::chars::{is_inline_space, is_whitespace, spec_is_inline_space, spec_is_whitespace};
use crate::compile::{push_decimal, push_str, spec_decimal};
use crate::document::{spec_report_kind, spec_kind, ElemKind, Element, Report, ReportCode, ReportKind, Token};
use crate::interop::{chars_to_string, str_to_chars};
use crate::properties::{
    lookup, parse_properties, schema_view, spec_lookup, spec_parse_properties, spec_prop_tokens, PropertySpec,
};
use crate::scan::{
    esc_until, lemma_esc_until_range, lemma_line_end, line_end, skip_inline_space,
    spec_esc_until, spec_line_end, spec_skip_inline_space,
};
use crate::semantics::{spec_add_token, SemKind, SemToken, Semantics};
use crate::text::{escape_text, spec_escape_text};

verus! {

/// Whether a list marker opens or closes a list.
#[derive(Clone, Copy, PartialEq, Eq, Debug, Structural)]
pub enum MarkerKind {
    Open,
    Close,
}

/// The start or the end of a (possibly nested) list.
#[derive(Clone, Copy, PartialEq, Eq, Debug, Structural)]
pub struct ListMarker {
    pub location: Token,
    pub numbered: bool,
    pub kind: MarkerKind,
}

/// An entry of a list.
pub struct ListEntry {
    pub location: Token,
    /// For each nesting level: whether it is numbered, and the entry's number.
    pub numbering: Vec<(bool, usize)>,
    pub content: Vec<Element>,
    pub bullet: Option<String>,
}

impl ListMarker {
    /// HTML of the marker.
    pub fn compile(&self) -> (r: String)
        ensures
            r@ == match (self.kind, self.numbered) {
                (MarkerKind::Close, true) => "</ol>"@,
                (MarkerKind::Close, false) => "</ul>"@,
                (MarkerKind::Open, true) => "<ol>"@,
                (MarkerKind::Open, false) => "<ul>"@,
            },
    {
        match (self.kind, self.numbered) {
            (MarkerKind::Close, true) => String::from_str("</ol>"),
            (MarkerKind::Close, false) => String::from_str("</ul>"),
            (MarkerKind::Open, true) => String::from_str("<ol>"),
            (MarkerKind::Open, false) => String::from_str("<ul>"),
        }
    }
}

/// The state of a checkbox entry.
#[derive(Clone, Copy, PartialEq, Eq, Debug, Structural)]
pub enum CheckboxState {
    Checked,
    Unchecked,
    Partial,
}

/// How an entry is marked: a bullet, or a checkbox.
#[derive(Clone, Copy, PartialEq, Eq, Debug, Structural)]
pub enum BulletMarker {
    Bullet,
    Checkbox(CheckboxState),
}

/// The marker of an entry whose bullet type is written `text` between
/// brackets: empty or a space for an unchecked box, `-` for a partial one,
/// `x` or `X` for a checked one; a plain bullet without brackets.
pub open spec fn spec_bullet_marker(text: Option<Seq<char>>) -> Option<BulletMarker> {
    match text {
        None => Some(BulletMarker::Bullet),
        Some(t) => if t.len() == 0 || t == seq![' '] {
            Some(BulletMarker::Checkbox(CheckboxState::Unchecked))
        } else if t == seq!['-'] {
            Some(BulletMarker::Checkbox(CheckboxState::Partial))
        } else if t == seq!['x'] || t == seq!['X'] {
            Some(BulletMarker::Checkbox(CheckboxState::Checked))
        } else {
            None
        },
    }
}

/// See `spec_bullet_marker`.
pub fn bullet_marker(text: Option<&[char]>) -> (r: Option<BulletMarker>)
    ensures
        r == spec_bullet_marker(match text {
            Some(t) => Some(t@),
            None => None,
        }),
{
    match text {
        None => Some(BulletMarker::Bullet),
        Some(t) => {
            if t.len() == 0 {
                return Some(BulletMarker::Checkbox(CheckboxState::Unchecked));
            }
            if t.len() == 1 {
                let c = t[0];
                proof {
                    assert(t@ =~= seq![c]);
                    assert(seq![' '][0] == ' ' && seq!['-'][0] == '-' && seq!['x'][0] == 'x' && seq!['X'][0] == 'X');
                }
                if c == ' ' {
                    return Some(BulletMarker::Checkbox(CheckboxState::Unchecked));
                } else if c == '-' {
                    return Some(BulletMarker::Checkbox(CheckboxState::Partial));
                } else if c == 'x' || c == 'X' {
                    return Some(BulletMarker::Checkbox(CheckboxState::Checked));
                }
                return None;
            }
            proof {
                assert(t@.len() != seq![' '].len());
            }
            None
        },
    }
}

/// The opening tag of an entry numbered `numbering`: with its number when
/// its deepest level is numbered.
pub open spec fn spec_entry_open(numbering: Seq<(bool, usize)>) -> Seq<char> {
    if numbering.len() == 0 {
        Seq::empty()
    } else if numbering.last().0 {
        "<li value=\""@ + spec_decimal(numbering.last().1 as nat) + "\">"@
    } else {
        "<li>"@
    }
}

impl ListEntry {
    /// Adds `elem` at the end of the entry; a block element is refused.
    pub fn push(&mut self, elem: Element) -> (r: Result<(), String>)
        ensures
            spec_kind(elem) == ElemKind::Block ==> r is Err && final(self).content@ == old(self).content@,
            spec_kind(elem) != ElemKind::Block ==> r is Ok && final(self).content@ == old(self).content@.push(elem),
            final(self).location == old(self).location,
            final(self).numbering@ == old(self).numbering@,
            final(self).bullet == old(self).bullet,
            r matches Err(m) ==> m@ == "Cannot add block element inside a list"@,
    {
        if elem.kind() == ElemKind::Block {
            return Err(String::from_str("Cannot add block element inside a list"));
        }
        self.content.push(elem);
        Ok(())
    }

    /// HTML of the entry whose elements give `content`.
    pub fn compile(&self, content: &str) -> (r: String)
        ensures
            r@ == spec_entry_open(self.numbering@) + content@ + "</li>"@,
    {
        proof { reveal_strlit("<li value=\""); reveal_strlit("\">"); reveal_strlit("<li>"); reveal_strlit("</li>"); }
        let mut out: Vec<char> = Vec::new();
        let n = self.numbering.len();
        if n > 0 {
            let (numbered, number) = self.numbering[n - 1];
            if numbered {
                push_str(&mut out, "<li value=\"");
                push_decimal(&mut out, number);
                push_str(&mut out, "\">");
            } else {
                push_str(&mut out, "<li>");
            }
        }
        push_str(&mut out, content);
        push_str(&mut out, "</li>");
        chars_to_string(out.as_slice())
    }
}

/// The ranges of a list entry's first line.
#[derive(Clone, Copy, PartialEq, Eq, Debug, Structural)]
pub struct EntryMatch {
    pub whole: Token,
    pub bullets: Token,
    pub props: Option<Token>,
    pub content: Token,
}

/// End of the run of `*` and `-` from `i`.
pub open spec fn spec_bullet_end(s: Seq<char>, i: int) -> int
    decreases s.len() - i,
{
    if 0 <= i < s.len() && (s[i] == '*' || s[i] == '-') {
        spec_bullet_end(s, i + 1)
    } else {
        i
    }
}

proof fn lemma_bullet_end(s: Seq<char>, i: int)
    requires
        0 <= i <= s.len(),
    ensures
        i <= spec_bullet_end(s, i) <= s.len(),
        forall|k: int| i <= k < spec_bullet_end(s, i) ==> s[k] == '*' || s[k] == '-',
    decreases s.len() - i,
{
    if i < s.len() && (s[i] == '*' || s[i] == '-') {
        lemma_bullet_end(s, i + 1);
    }
}

proof fn lemma_skip_inline_space(s: Seq<char>, i: int)
    requires
        0 <= i <= s.len(),
    ensures
        i <= spec_skip_inline_space(s, i) <= s.len(),
        forall|k: int| i <= k < spec_skip_inline_space(s, i) ==> spec_is_inline_space(s[k]),
    decreases s.len() - i,
{
    if i < s.len() && spec_is_inline_space(s[i]) {
        lemma_skip_inline_space(s, i + 1);
    }
}

/// The entry whose indentation starts at `q`, for a match at `p`.
pub open spec fn spec_entry_from(s: Seq<char>, p: int, q: int) -> Option<EntryMatch> {
    let w = spec_skip_inline_space(s, q);
    let b = spec_bullet_end(s, w);
    if w == q || b == w {
        None
    } else {
        let (props, next) = if b < s.len() && s[b] == '[' && spec_esc_until(s, b + 1, "]"@, false) is Some {
            let e = spec_esc_until(s, b + 1, "]"@, false)->0;
            (Some(Token { start: (b + 1) as usize, end: e as usize }), e + 1)
        } else {
            (None::<Token>, b)
        };
        let le = spec_line_end(s, next);
        Some(EntryMatch {
            whole: Token { start: p as usize, end: le as usize },
            bullets: Token { start: w as usize, end: b as usize },
            props,
            content: Token { start: next as usize, end: le as usize },
        })
    }
}

/// The match of `(?:^|\n)(?:[^\S\r\n]+)([*-]+)(?:\[((?:\\.|[^\\])*?)\])?(.*)`
/// at `p`: a line that starts with whitespace, then bullets, optional
/// properties and the entry's text.
pub open spec fn spec_entry_at(s: Seq<char>, p: int) -> Option<EntryMatch> {
    if p == 0 && spec_entry_from(s, 0, 0) is Some {
        spec_entry_from(s, 0, 0)
    } else if 0 <= p < s.len() && s[p] == '\n' {
        spec_entry_from(s, p, p + 1)
    } else {
        None
    }
}

pub open spec fn entry_match_wf(s: Seq<char>, m: EntryMatch) -> bool {
    &&& m.whole.start < m.bullets.start < m.bullets.end <= m.content.start <= m.content.end == m.whole.end <= s.len()
    &&& m.props matches Some(pr) ==> m.bullets.end + 1 == pr.start <= pr.end && pr.end + 1 == m.content.start
    &&& m.props is None ==> m.bullets.end == m.content.start
    &&& forall|k: int| m.bullets.start <= k < m.bullets.end ==> s[k] == '*' || s[k] == '-'
}

/// A line that continues the entry before it: after the newline at `c`, a
/// line that starts with whitespace and whose first `*` or `-` (if any)
/// comes after something other than whitespace. Result: the end of the line.
/// Where an entry whose first line ends at `e` ends: after the lines that
/// continue it.
pub open spec fn spec_entry_end(s: Seq<char>, e: int) -> int
    decreases s.len() - e,
{
    match spec_continuation_at(s, e) {
        Some(n) => if e < n <= s.len() {
            spec_entry_end(s, n)
        } else {
            e
        },
        None => e,
    }
}

pub open spec fn spec_continuation_at(s: Seq<char>, c: int) -> Option<int> {
    if 0 <= c && c + 1 < s.len() && s[c] == '\n' && spec_is_inline_space(s[c + 1]) {
        let le = spec_line_end(s, c + 1);
        if spec_new_entry_line(s, c + 1, le) {
            None
        } else {
            Some(le)
        }
    } else {
        None
    }
}

/// Whether `s[a..e]` has a `*` or `-` preceded only by whitespace.
pub open spec fn spec_new_entry_line(s: Seq<char>, a: int, e: int) -> bool
    decreases e - a,
{
    if a < 0 || a >= e || e > s.len() {
        false
    } else if s[a] == '*' || s[a] == '-' {
        true
    } else if spec_is_whitespace(s[a]) {
        spec_new_entry_line(s, a + 1, e)
    } else {
        false
    }
}

/// Numbering of level `idx` of an entry written with bullets `depth`, after
/// the entry `prev` (when the list goes on) and with an `offset` property,
/// which numbers the deepest level.
pub open spec fn spec_depth_entry(depth: Seq<char>, prev: Option<Seq<(bool, usize)>>, offset: Option<usize>, idx: int) -> (bool, usize) {
    let numbered = depth[idx] == '-';
    let number = if offset is None || idx + 1 != depth.len() {
        spec_depth_number(depth, prev, idx)
    } else {
        offset->0
    };
    (numbered, number)
}

/// Numbering of an entry written with bullets `depth`.
pub open spec fn spec_parse_depth(depth: Seq<char>, prev: Option<Seq<(bool, usize)>>, offset: Option<usize>) -> Seq<(bool, usize)> {
    Seq::new(depth.len(), |i: int| spec_depth_entry(depth, prev, offset, i))
}

/// Whether the first `idx` bullets agree with the previous entry on which
/// levels are numbered.
pub open spec fn spec_prefix_agrees(depth: Seq<char>, v: Seq<(bool, usize)>, idx: int) -> bool {
    forall|j: int| 0 <= j < idx && j < v.len() ==> #[trigger] v[j].0 == (depth[j] == '-')
}

/// Number of the entry at level `idx`: one more than the previous entry at
/// the deepest level it shares, the same number at the levels above, and 1
/// once the levels differ.
pub open spec fn spec_depth_number(depth: Seq<char>, prev: Option<Seq<(bool, usize)>>, idx: int) -> usize {
    match prev {
        None => 1,
        Some(v) => if idx < v.len() && spec_prefix_agrees(depth, v, idx) && v[idx].0 == (depth[idx] == '-') {
            if idx + 1 == v.len() {
                if v[idx].1 < usize::MAX { (v[idx].1 + 1) as usize } else { v[idx].1 }
            } else {
                v[idx].1
            }
        } else {
            1
        },
    }
}

/// How an entry's levels are numbered: level `idx` is numbered (`-`) or not
/// (`*`) as its bullet says. The deepest level takes the `offset` when one
/// is given. Otherwise a level counts on from the previous entry only while
/// every level down to it is of the same kind in both entries: one more
/// than the previous entry at its deepest level, the same number above it;
/// a level that the previous entry lacks, or below a level whose kind
/// changed (that one included), starts again at 1, as does every level of
/// an entry that follows no entry.
pub proof fn law_depth_numbers(depth: Seq<char>, prev: Option<Seq<(bool, usize)>>, offset: Option<usize>, idx: int)
    requires
        0 <= idx < depth.len(),
    ensures
        ({
            let r = spec_parse_depth(depth, prev, offset);
            let n = r[idx].1;
            &&& r.len() == depth.len()
            &&& r[idx].0 == (depth[idx] == '-')
            &&& offset is Some && idx + 1 == depth.len() ==> n == offset->0
            &&& !(offset is Some && idx + 1 == depth.len()) ==> match prev {
                None => n == 1,
                Some(v) => {
                    &&& (idx >= v.len() || exists|j: int| 0 <= j <= idx && j < v.len() && v[j].0 != (depth[j] == '-'))
                        ==> n == 1
                    &&& (idx < v.len() && forall|j: int| 0 <= j <= idx ==> v[j].0 == (depth[j] == '-')) ==> n == (
                        if idx + 1 == v.len() {
                            if v[idx].1 < usize::MAX { (v[idx].1 + 1) as usize } else { v[idx].1 }
                        } else {
                            v[idx].1
                        })
                },
            }
        }),
{
    match prev {
        None => {},
        Some(v) => {
            if idx < v.len() && forall|j: int| 0 <= j <= idx ==> v[j].0 == (depth[j] == '-') {
                assert(spec_prefix_agrees(depth, v, idx));
            }
            if exists|j: int| 0 <= j <= idx && j < v.len() && v[j].0 != (depth[j] == '-') {
                let j = choose|j: int| 0 <= j <= idx && j < v.len() && v[j].0 != (depth[j] == '-');
                if j < idx {
                    assert(!spec_prefix_agrees(depth, v, idx));
                }
            }
        },
    }
}

/// Nesting flags of a numbering.
pub open spec fn flags(v: Seq<(bool, usize)>) -> Seq<bool> {
    v.map_values(|e: (bool, usize)| e.0)
}

/// Length of the common prefix of two flag sequences.
pub open spec fn spec_common(a: Seq<bool>, b: Seq<bool>, i: int) -> int
    decreases a.len() - i,
{
    if 0 <= i < a.len() && i < b.len() && a[i] == b[i] {
        spec_common(a, b, i + 1)
    } else {
        i
    }
}

/// The markers that lead from nesting `cur` to nesting `target`: closes for
/// the levels of `cur` past their common prefix (innermost first), then
/// opens for the levels of `target` past it.
pub open spec fn spec_markers(cur: Seq<bool>, target: Seq<bool>) -> Seq<(MarkerKind, bool)> {
    let k = spec_common(cur, target, 0);
    Seq::new((cur.len() - k) as nat, |i: int| (MarkerKind::Close, cur[cur.len() - 1 - i]))
        + Seq::new((target.len() - k) as nat, |i: int| (MarkerKind::Open, target[k + i]))
}

/// Nesting after the markers `m` starting from `stack`.
pub open spec fn apply_markers(stack: Seq<bool>, m: Seq<(MarkerKind, bool)>) -> Seq<bool>
    decreases m.len(),
{
    if m.len() == 0 {
        stack
    } else {
        let st = apply_markers(stack, m.drop_last());
        match m.last().0 {
            MarkerKind::Open => st.push(m.last().1),
            MarkerKind::Close => st.drop_last(),
        }
    }
}

proof fn lemma_common(a: Seq<bool>, b: Seq<bool>, i: int)
    requires
        0 <= i <= a.len(),
        i <= b.len(),
        forall|j: int| 0 <= j < i ==> a[j] == b[j],
    ensures
        i <= spec_common(a, b, i) <= a.len(),
        spec_common(a, b, i) <= b.len(),
        forall|j: int| 0 <= j < spec_common(a, b, i) ==> a[j] == b[j],
    decreases a.len() - i,
{
    if i < a.len() && i < b.len() && a[i] == b[i] {
        lemma_common(a, b, i + 1);
    }
}

proof fn lemma_apply_opens(stack: Seq<bool>, t: Seq<bool>, k: int, n: int)
    requires
        0 <= k,
        0 <= n <= t.len() - k,
    ensures
        apply_markers(stack, Seq::new(n as nat, |i: int| (MarkerKind::Open, t[k + i]))) =~= stack + t.subrange(k, k + n),
    decreases n,
{
    let m = Seq::new(n as nat, |i: int| (MarkerKind::Open, t[k + i]));
    if n > 0 {
        assert(m.drop_last() =~= Seq::new((n - 1) as nat, |i: int| (MarkerKind::Open, t[k + i])));
        lemma_apply_opens(stack, t, k, n - 1);
    }
}

proof fn lemma_apply_concat(stack: Seq<bool>, a: Seq<(MarkerKind, bool)>, b: Seq<(MarkerKind, bool)>)
    ensures
        apply_markers(stack, a + b) == apply_markers(apply_markers(stack, a), b),
    decreases b.len(),
{
    if b.len() == 0 {
        assert(a + b =~= a);
    } else {
        assert((a + b).drop_last() =~= a + b.drop_last());
        lemma_apply_concat(stack, a, b.drop_last());
    }
}

proof fn lemma_apply_closes_gen(cur: Seq<bool>, len: int, n: int)
    requires
        len == cur.len(),
        0 <= n <= len,
    ensures
        apply_markers(cur, Seq::new(n as nat, |i: int| (MarkerKind::Close, cur[len - 1 - i]))) =~= cur.subrange(0, len - n),
    decreases n,
{
    let m = Seq::new(n as nat, |i: int| (MarkerKind::Close, cur[len - 1 - i]));
    if n == 0 {
        assert(cur.subrange(0, len) =~= cur);
    } else {
        assert(m.drop_last() =~= Seq::new((n - 1) as nat, |i: int| (MarkerKind::Close, cur[len - 1 - i])));
        lemma_apply_closes_gen(cur, len, n - 1);
    }
}

/// The markers between two entries take the nesting of the first to the
/// nesting of the second.
pub proof fn law_markers_reach_target(cur: Seq<bool>, target: Seq<bool>)
    ensures
        apply_markers(cur, spec_markers(cur, target)) == target,
{
    lemma_common(cur, target, 0);
    let k = spec_common(cur, target, 0);
    let closes = Seq::new((cur.len() - k) as nat, |i: int| (MarkerKind::Close, cur[cur.len() - 1 - i]));
    let opens = Seq::new((target.len() - k) as nat, |i: int| (MarkerKind::Open, target[k + i]));
    lemma_apply_concat(cur, closes, opens);
    lemma_apply_closes_gen(cur, cur.len() as int, cur.len() - k);
    lemma_apply_opens(cur.subrange(0, k), target, k, target.len() - k);
    assert(cur.subrange(0, k) =~= target.subrange(0, k));
    assert(target.subrange(0, k) + target.subrange(k, target.len() as int) =~= target);
}

/// The markers between consecutive entries (see `spec_markers`).
pub fn push_markers(current: &Vec<(bool, usize)>, target: &Vec<(bool, usize)>) -> (r: Vec<(MarkerKind, bool)>)
    ensures
        r@ == spec_markers(flags(current@), flags(target@)),
{
    let ghost a = flags(current@);
    let ghost b = flags(target@);
    let mut start: usize = 0;
    proof { lemma_common(a, b, 0); }
    while start < current.len() && start < target.len() && current[start].0 == target[start].0
        invariant
            0 <= start <= current@.len(),
            start <= target@.len(),
            a == flags(current@),
            b == flags(target@),
            spec_common(a, b, 0) == spec_common(a, b, start as int),
        decreases current@.len() - start,
    {
        start += 1;
    }
    let mut r: Vec<(MarkerKind, bool)> = Vec::new();
    let mut i = start;
    while i < current.len()
        invariant
            start <= i <= current@.len(),
            a == flags(current@),
            r@ == Seq::new((i - start) as nat, |j: int| (MarkerKind::Close, a[a.len() - 1 - j])),
        decreases current@.len() - i,
    {
        r.push((MarkerKind::Close, current[current.len() - 1 - (i - start)].0));
        i += 1;
        assert(r@ =~= Seq::new((i - start) as nat, |j: int| (MarkerKind::Close, a[a.len() - 1 - j])));
    }
    let ghost closes = r@;
    let mut i = start;
    while i < target.len()
        invariant
            start <= i <= target@.len(),
            b == flags(target@),
            r@ == closes + Seq::new((i - start) as nat, |j: int| (MarkerKind::Open, b[start + j])),
        decreases target@.len() - i,
    {
        r.push((MarkerKind::Open, target[i].0));
        i += 1;
        assert(r@ =~= closes + Seq::new((i - start) as nat, |j: int| (MarkerKind::Open, b[start + j])));
    }
    r
}

/// Numbering of an entry (see `spec_parse_depth`).
pub fn parse_depth(depth: &[char], prev: Option<&Vec<(bool, usize)>>, offset: Option<usize>) -> (r: Vec<(bool, usize)>)
    ensures
        r@ == spec_parse_depth(depth@, match prev {
            Some(v) => Some(v@),
            None => None,
        }, offset),
{
    let ghost pv = match prev {
        Some(v) => Some(v@),
        None => None::<Seq<(bool, usize)>>,
    };
    let mut r: Vec<(bool, usize)> = Vec::new();
    let mut agrees = true;
    let mut idx: usize = 0;
    while idx < depth.len()
        invariant
            0 <= idx <= depth@.len(),
            pv == match prev {
                Some(v) => Some(v@),
                None => None::<Seq<(bool, usize)>>,
            },
            r@ == Seq::new(idx as nat, |i: int| spec_depth_entry(depth@, pv, offset, i)),
            prev matches Some(v) ==> agrees == spec_prefix_agrees(depth@, v@, idx as int),
        decreases depth@.len() - idx,
    {
        let c = depth[idx];
        let numbered = c == '-';
        let mut from_prev: usize = 1;
        match prev {
            Some(v) => {
                if agrees && idx < v.len() && v[idx].0 == numbered {
                    from_prev = if idx + 1 == v.len() {
                        if v[idx].1 < usize::MAX { v[idx].1 + 1 } else { v[idx].1 }
                    } else {
                        v[idx].1
                    };
                }
            },
            None => {},
        }
        let number = if offset.is_none() || idx + 1 != depth.len() {
            from_prev
        } else {
            offset.unwrap()
        };
        r.push((numbered, number));
        match prev {
            Some(v) => {
                if idx < v.len() {
                    agrees = agrees && v[idx].0 == numbered;
                }
                proof {
                    assert(agrees == spec_prefix_agrees(depth@, v@, idx + 1));
                }
            },
            None => {},
        }
        idx += 1;
        assert(r@ =~= Seq::new(idx as nat, |i: int| spec_depth_entry(depth@, pv, offset, i)));
    }
    r
}

/// Value of the decimal digits `d`, when there is at least one and it fits
/// in `usize`.
pub open spec fn spec_parse_digits(d: Seq<char>) -> Option<usize> {
    if d.len() > 0 && (forall|i: int| 0 <= i < d.len() ==> '0' <= #[trigger] d[i] <= '9') && spec_digits_value(d) <= usize::MAX {
        Some(spec_digits_value(d) as usize)
    } else {
        None
    }
}

/// Value of a decimal number, with an optional `+` sign, when it fits in `usize`.
pub open spec fn spec_parse_usize(s: Seq<char>) -> Option<usize> {
    if s.len() > 0 && s[0] == '+' { spec_parse_digits(s.drop_first()) } else { spec_parse_digits(s) }
}

pub open spec fn spec_digits_value(d: Seq<char>) -> nat
    decreases d.len(),
{
    if d.len() == 0 {
        0
    } else {
        spec_digits_value(d.drop_last()) * 10 + ((d.last() as u32) - ('0' as u32)) as nat
    }
}

proof fn lemma_digits_value_mono(d: Seq<char>, n: int)
    requires
        0 <= n <= d.len(),
        forall|i: int| 0 <= i < d.len() ==> '0' <= #[trigger] d[i] <= '9',
    ensures
        spec_digits_value(d.subrange(0, n)) <= spec_digits_value(d),
    decreases d.len() - n,
{
    if n < d.len() {
        lemma_digits_value_mono(d, n + 1);
        let a = d.subrange(0, n + 1);
        assert(a.drop_last() =~= d.subrange(0, n));
        let x = spec_digits_value(a.drop_last());
        let y = spec_digits_value(a);
        assert(y >= x * 10);
        assert(x * 10 >= x) by (nonlinear_arith)
            requires x >= 0,
        ;
    } else {
        assert(d.subrange(0, n) =~= d);
    }
}

/// Value of the digits `s[start..]` (see `spec_parse_digits`).
fn parse_digits(s: &[char], start: usize) -> (r: Option<usize>)
    requires
        start <= s@.len(),
    ensures
        r == spec_parse_digits(s@.subrange(start as int, s@.len() as int)),
{
    let ghost d = s@.subrange(start as int, s@.len() as int);
    if start == s.len() {
        return None;
    }
    let mut v: usize = 0;
    let mut i = start;
    assert(d.subrange(0, 0) =~= Seq::<char>::empty());
    while i < s.len()
        invariant
            start <= i <= s@.len(),
            d == s@.subrange(start as int, s@.len() as int),
            forall|k: int| 0 <= k < i - start ==> '0' <= #[trigger] d[k] <= '9',
            v as nat == spec_digits_value(d.subrange(0, i - start)),
        decreases s@.len() - i,
    {
        let c = s[i];
        assert(d[i - start] == c);
        if !('0' <= c && c <= '9') {
            assert(!(forall|k: int| 0 <= k < d.len() ==> '0' <= #[trigger] d[k] <= '9'));
            return None;
        }
        let digit = (c as u32 - '0' as u32) as usize;
        proof {
            let a = d.subrange(0, i - start + 1);
            assert(a.drop_last() =~= d.subrange(0, i - start));
            assert(a.last() == c);
        }
        if v > (usize::MAX - digit) / 10 {
            proof {
                assert(v * 10 + digit > usize::MAX) by (nonlinear_arith)
                    requires
                        v > (usize::MAX - digit) / 10,
                        digit <= 9,
                ;
                if forall|k: int| 0 <= k < d.len() ==> '0' <= #[trigger] d[k] <= '9' {
                    lemma_digits_value_mono(d, i - start + 1);
                }
            }
            return None;
        }
        assert(v * 10 + digit <= usize::MAX) by (nonlinear_arith)
            requires
                v <= (usize::MAX - digit) / 10,
                digit <= 9,
        ;
        v = v * 10 + digit;
        i += 1;
    }
    assert(d.subrange(0, d.len() as int) =~= d);
    Some(v)
}

/// Value of a decimal number (see `spec_parse_usize`).
pub fn parse_usize(s: &[char]) -> (r: Option<usize>)
    ensures
        r == spec_parse_usize(s@),
{
    if s.len() > 0 && s[0] == '+' {
        assert(s@.drop_first() =~= s@.subrange(1, s@.len() as int));
        parse_digits(s, 1)
    } else {
        assert(s@ =~= s@.subrange(0, s@.len() as int));
        parse_digits(s, 0)
    }
}

/// The rule for lists.
pub struct ListRule {
    /// The properties of entries: `offset` and `bullet`, both optional.
    pub properties: Vec<PropertySpec>,
}

/// Properties of list entries.
pub open spec fn list_schema() -> Seq<(Seq<char>, bool, Option<Seq<char>>)> {
    seq![("offset"@, false, None), ("bullet"@, false, None)]
}

impl ListRule {
    pub fn new() -> (r: ListRule)
        ensures
            schema_view(r.properties@) == list_schema(),
    {
        let mut properties: Vec<PropertySpec> = Vec::new();
        properties.push(PropertySpec { name: str_to_chars("offset"), required: false, default: None });
        properties.push(PropertySpec { name: str_to_chars("bullet"), required: false, default: None });
        let r = ListRule { properties };
        assert(schema_view(r.properties@) =~= list_schema());
        r
    }

    fn entry_from(&self, s: &[char], p: usize, q: usize) -> (r: Option<EntryMatch>)
        requires
            p < q <= s@.len() || (p == 0 && q == 0),
        ensures
            r == spec_entry_from(s@, p as int, q as int),
            r matches Some(m) ==> entry_match_wf(s@, m),
    {
        proof { reveal_strlit("]"); lemma_skip_inline_space(s@, q as int); }
        let w = skip_inline_space(s, q);
        proof { lemma_bullet_end(s@, w as int); }
        let mut b = w;
        while b < s.len() && (s[b] == '*' || s[b] == '-')
            invariant
                w <= b <= s@.len(),
                spec_bullet_end(s@, w as int) == spec_bullet_end(s@, b as int),
            decreases s@.len() - b,
        {
            b += 1;
        }
        if w == q || b == w {
            return None;
        }
        let mut props: Option<Token> = None;
        let mut next = b;
        if b < s.len() && s[b] == '[' {
            let close = str_to_chars("]");
            match esc_until(s, b + 1, close.as_slice(), false) {
                Some(e) => {
                    proof { lemma_esc_until_range(s@, b + 1, close@, false); }
                    props = Some(Token { start: b + 1, end: e });
                    next = e + 1;
                },
                None => {},
            }
        }
        let le = line_end(s, next);
        Some(EntryMatch {
            whole: Token { start: p, end: le },
            bullets: Token { start: w, end: b },
            props,
            content: Token { start: next, end: le },
        })
    }

    /// The match of the entry pattern at `p` (see `spec_entry_at`).
    pub fn entry_at(&self, s: &[char], p: usize) -> (r: Option<EntryMatch>)
        ensures
            r == spec_entry_at(s@, p as int),
            r matches Some(m) ==> entry_match_wf(s@, m) && m.whole.start == p,
    {
        if p == 0 {
            let m = self.entry_from(s, 0, 0);
            if m.is_some() {
                return m;
            }
        }
        if p < s.len() && s[p] == '\n' {
            self.entry_from(s, p, p + 1)
        } else {
            None
        }
    }

    /// The first entry at or after `from`.
    pub fn find(&self, s: &[char], from: usize) -> (r: Option<EntryMatch>)
        ensures
            match r {
                Some(m) => from <= m.whole.start && spec_entry_at(s@, m.whole.start as int) == Some(m)
                    && entry_match_wf(s@, m)
                    && forall|q: int| from <= q < m.whole.start ==> spec_entry_at(s@, q) is None,
                None => forall|q: int| from <= q ==> spec_entry_at(s@, q) is None,
            },
    {
        let mut p = from;
        while p < s.len()
            invariant
                from <= p,
                forall|q: int| from <= q < p ==> spec_entry_at(s@, q) is None,
            decreases s@.len() - p,
        {
            match self.entry_at(s, p) {
                Some(m) => return Some(m),
                None => {},
            }
            p += 1;
        }
        None
    }

    /// The line after the newline at `c` when it continues an entry: its end.
    pub fn continuation_at(&self, s: &[char], c: usize) -> (r: Option<usize>)
        ensures
            r matches Some(e) ==> spec_continuation_at(s@, c as int) == Some(e as int) && c < e <= s@.len(),
            r is None ==> spec_continuation_at(s@, c as int) is None,
    {
        if c < s.len() && c + 1 < s.len() && s[c] == '\n' && is_inline_space(s[c + 1]) {
            let le = line_end(s, c + 1);
            let mut a = c + 1;
            while a < le && !(s[a] == '*' || s[a] == '-') && is_whitespace(s[a])
                invariant
                    c + 1 <= a <= le <= s@.len(),
                    spec_new_entry_line(s@, c + 1, le as int) == spec_new_entry_line(s@, a as int, le as int),
                decreases le - a,
            {
                a += 1;
            }
            if a < le && (s[a] == '*' || s[a] == '-') {
                None
            } else {
                Some(le)
            }
        } else {
            None
        }
    }

    /// End of an entry whose first line ends at `end`: the end of the last
    /// continuation line that follows.
    pub fn entry_end(&self, s: &[char], end: usize) -> (r: usize)
        requires
            end <= s@.len(),
        ensures
            end <= r <= s@.len(),
            spec_continuation_at(s@, r as int) is None,
            r == spec_entry_end(s@, end as int),
    {
        let mut e = end;
        loop
            invariant
                end <= e <= s@.len(),
                spec_entry_end(s@, e as int) == spec_entry_end(s@, end as int),
            decreases s@.len() - e,
        {
            match self.continuation_at(s, e) {
                Some(n) => {
                    e = n;
                },
                None => {
                    return e;
                },
            }
        }
    }
}

/// What the properties of an entry yield: its offset and bullet.
/// The tokens `t` with those of list entry `m` added: its bullets, then its
/// properties (see `spec_prop_tokens`) within their brackets.
pub open spec fn spec_entry_tokens(t: Seq<SemToken>, s: Seq<char>, m: EntryMatch) -> Seq<SemToken> {
    let t1 = spec_add_token(t, m.bullets.start as int, m.bullets.end as int, SemKind::ListBullet);
    match m.props {
        Some(p) => {
            let a = spec_add_token(t1, p.start - 1, p.start as int, SemKind::ListPropsSep);
            let b = spec_prop_tokens(a, s, p.start as int, p.start as int, p.end as int, 0);
            spec_add_token(b, p.end as int, p.end + 1, SemKind::ListPropsSep)
        },
        None => t1,
    }
}

pub open spec fn spec_entry_props(s: Seq<char>, m: EntryMatch, prev_bullet: Option<Seq<char>>) -> Result<(Option<usize>, Option<Seq<char>>), ReportCode> {
    let props = match m.props {
        None => Seq::<char>::empty(),
        Some(p) => spec_escape_text('\\', "]"@, s.subrange(p.start as int, p.end as int)),
    };
    match spec_parse_properties(props, list_schema()) {
        Err(_) => Err(ReportCode::InvalidListProperties),
        Ok(entries) => {
            let offset = match spec_lookup(entries, "offset"@) {
                None => Ok(None),
                Some(o) => match spec_parse_usize(o) {
                    None => Err(ReportCode::InvalidListOffset),
                    Some(n) => Ok(Some(n)),
                },
            };
            match offset {
                Err(e) => Err(e),
                Ok(off) => Ok((off, match spec_lookup(entries, "bullet"@) {
                    Some(b) => Some(b),
                    None => prev_bullet,
                })),
            }
        },
    }
}

impl ListRule {
    /// The offset and bullet of entry `m` (the bullet of the previous entry
    /// when the entry has none), or the report that refuses its properties.
    pub fn entry_props(&self, s: &[char], m: EntryMatch, prev_bullet: Option<&String>, sems: &mut Semantics) -> (r: Result<(Option<usize>, Option<String>), Report>)
        requires
            entry_match_wf(s@, m),
            schema_view(self.properties@) == list_schema(),
            old(sems).wf(),
        ensures
            final(sems).wf(),
            match r {
                Ok((o, b)) => spec_entry_props(s@, m, match prev_bullet {
                    Some(p) => Some(p@),
                    None => None,
                }) == Ok::<(Option<usize>, Option<Seq<char>>), ReportCode>((o, match b {
                    Some(x) => Some(x@),
                    None => None,
                })),
                Err(rep) => spec_entry_props(s@, m, match prev_bullet {
                    Some(p) => Some(p@),
                    None => None,
                }) == Err::<(Option<usize>, Option<Seq<char>>), ReportCode>(rep.code) && rep.kind == spec_report_kind(rep.code)
                    && rep.span == m.whole,
            },
            r is Ok ==> final(sems).tokens@ == spec_entry_tokens(old(sems).tokens@, s@, m),
            r is Err ==> final(sems).tokens@ == old(sems).tokens@,
    {
        proof { reveal_strlit("]"); }
        let props_text = match m.props {
            None => Vec::new(),
            Some(p) => {
                let close = str_to_chars("]");
                escape_text('\\', close.as_slice(), s, p.start, p.end)
            },
        };
        let entries = match parse_properties(props_text.as_slice(), &self.properties) {
            Err(_) => {
                return Err(Report { kind: ReportKind::Error, code: ReportCode::InvalidListProperties, span: m.whole });
            },
            Ok(e) => e,
        };
        let offset_name = str_to_chars("offset");
        let offset = match lookup(&entries, offset_name.as_slice()) {
            None => None,
            Some(o) => match parse_usize(o.as_slice()) {
                None => {
                    return Err(Report { kind: ReportKind::Error, code: ReportCode::InvalidListOffset, span: m.whole });
                },
                Some(n) => Some(n),
            },
        };
        let bullet_name = str_to_chars("bullet");
        let bullet = match lookup(&entries, bullet_name.as_slice()) {
            Some(b) => Some(chars_to_string(b.as_slice())),
            None => match prev_bullet {
                Some(p) => Some(p.clone()),
                None => None,
            },
        };
        sems.add(m.bullets.start, m.bullets.end, SemKind::ListBullet);
        match m.props {
            Some(p) => {
                sems.add(p.start - 1, p.start, SemKind::ListPropsSep);
                crate::properties::add_property_tokens(s, p.start, p.end, sems);
                sems.add(p.end, p.end + 1, SemKind::ListPropsSep);
            },
            None => {},
        }
        Ok((offset, bullet))
    }
}

} // verus!
