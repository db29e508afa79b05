//! A list as one element: its entries, each with the levels of nested
//! lists it stands in, outermost first.
use vstd::prelude::*;

use crate::compile::{push_decimal, push_str, spec_decimal};
use crate::document::{Element, Token};
use crate::elements::list::{BulletMarker, CheckboxState};
use crate::interop::chars_to_string;

verus! {

/// One level of the lists around an entry.
#[derive(Clone, Copy, PartialEq, Eq, Debug, Structural)]
pub struct ListMarker {
    pub numbered: bool,
    /// What the entry adds to the number of the level.
    pub offset: usize,
}

/// An entry of a list.
pub struct ListEntry {
    pub location: Token,
    pub bullet: BulletMarker,
    /// The content, parsed as paragraph content.
    pub content: Vec<Element>,
    /// The levels, outermost first.
    pub markers: Vec<ListMarker>,
}

/// A list and its nested lists.
pub struct List {
    pub location: Token,
    pub entries: Vec<ListEntry>,
}

/// Whether the levels written `depth[..=i]` agree in kind, one for one,
/// with the levels `previous` of the entry before.
pub open spec fn spec_levels_agree(depth: Seq<char>, previous: Seq<ListMarker>, i: int) -> bool {
    forall|j: int| 0 <= j <= i ==> j < previous.len() && #[trigger] previous[j].numbered == (depth[j] == '-')
}

/// The levels of an entry whose bullets are `depth` (`*` unnumbered, `-`
/// numbered), after an entry with the levels `previous`: the innermost
/// level advances by `offset`; any other advances by one, unless it and
/// the levels around it agree with those of the previous entry, and then
/// keeps its number.
pub open spec fn spec_entry_markers(depth: Seq<char>, offset: usize, previous: Seq<ListMarker>) -> Seq<ListMarker> {
    Seq::new(depth.len(), |i: int| ListMarker {
        numbered: depth[i] == '-',
        offset: if i == depth.len() - 1 {
            offset
        } else if spec_levels_agree(depth, previous, i) {
            0
        } else {
            1
        },
    })
}

/// See `spec_entry_markers`.
pub fn parse_markers(depth: &[char], offset: usize, previous: &[ListMarker]) -> (r: Vec<ListMarker>)
    requires
        forall|i: int| 0 <= i < depth@.len() ==> depth@[i] == '*' || depth@[i] == '-',
    ensures
        r@ == spec_entry_markers(depth@, offset, previous@),
{
    let mut r: Vec<ListMarker> = Vec::new();
    let mut matched = true;
    let mut i: usize = 0;
    while i < depth.len()
        invariant
            0 <= i <= depth@.len(),
            r@.len() == i,
            matched == spec_levels_agree(depth@, previous@, i - 1),
            forall|j: int| 0 <= j < i ==> r@[j] == spec_entry_markers(depth@, offset, previous@)[j],
        decreases depth@.len() - i,
    {
        let numbered = depth[i] == '-';
        if !(matched && i < previous.len() && previous[i].numbered == numbered) {
            matched = false;
        }
        proof {
            if spec_levels_agree(depth@, previous@, i as int) {
                assert(previous@[i as int].numbered == (depth@[i as int] == '-'));
                assert forall|j: int| 0 <= j <= i - 1 implies j < previous@.len()
                    && #[trigger] previous@[j].numbered == (depth@[j] == '-') by {
                    assert(previous@[j].numbered == (depth@[j] == '-'));
                }
            }
            if matched {
                assert forall|j: int| 0 <= j <= i implies j < previous@.len()
                    && #[trigger] previous@[j].numbered == (depth@[j] == '-') by {
                    if j < i {
                        assert(spec_levels_agree(depth@, previous@, i - 1));
                    }
                }
            }
        }
        let level = if i + 1 == depth.len() {
            offset
        } else if matched {
            0
        } else {
            1
        };
        r.push(ListMarker { numbered, offset: level });
        i += 1;
    }
    assert(r@ =~= spec_entry_markers(depth@, offset, previous@));
    r
}

/// The opening or closing tag of a list level.
pub open spec fn spec_level_tag(numbered: bool, close: bool) -> Seq<char> {
    if close {
        if numbered { "</ol>"@ } else { "</ul>"@ }
    } else {
        if numbered { "<ol>"@ } else { "<ul>"@ }
    }
}

/// How many of the open levels `stack` (kind and number) the levels
/// `target` share from index `i` on: the length of the common start.
pub open spec fn spec_shared(stack: Seq<(bool, int)>, target: Seq<ListMarker>, i: int) -> int
    decreases target.len() - i,
{
    if 0 <= i < target.len() && i < stack.len() && stack[i].0 == target[i].numbered {
        spec_shared(stack, target, i + 1)
    } else {
        i
    }
}

/// Closing tags of the levels of `stack` past the first `m`, innermost first.
pub open spec fn spec_close_tags(stack: Seq<(bool, int)>, m: int) -> Seq<char>
    decreases stack.len(),
{
    if stack.len() == 0 || stack.len() <= m {
        Seq::empty()
    } else {
        spec_level_tag(stack.last().0, true) + spec_close_tags(stack.drop_last(), m)
    }
}

/// Opening tags of the levels of `target` past the first `m`, outermost first.
pub open spec fn spec_open_tags(target: Seq<ListMarker>, m: int) -> Seq<char>
    decreases target.len(),
{
    if target.len() == 0 || target.len() <= m {
        Seq::empty()
    } else {
        spec_open_tags(target.drop_last(), m) + spec_level_tag(target.last().numbered, false)
    }
}

/// The levels of `target` past the first `m`, as open levels.
pub open spec fn spec_opened(target: Seq<ListMarker>, m: int) -> Seq<(bool, int)> {
    target.subrange(m, target.len() as int).map_values(|t: ListMarker| (t.numbered, t.offset as int))
}

/// The step from the open levels `stack` to an entry's levels `target`:
/// the levels after it, the tags it writes, and whether the entry is
/// numbered. When every open level is shared (and there is one), the
/// innermost advances by the entry's offset and the entry takes its
/// number. Otherwise the open levels past the shared ones are closed,
/// innermost first, and the entry's levels past them are opened and put on
/// top of the stack; the closed levels stay on it.
pub open spec fn spec_match_levels(stack: Seq<(bool, int)>, target: Seq<ListMarker>) -> (Seq<(bool, int)>, Seq<char>, bool) {
    let m = spec_shared(stack, target, 0);
    if m == stack.len() && m != 0 {
        (stack.update(m - 1, (stack[m - 1].0, stack[m - 1].1 + target[m - 1].offset)), Seq::empty(), true)
    } else {
        (stack + spec_opened(target, m), spec_close_tags(stack, m) + spec_open_tags(target, m), false)
    }
}

/// The open levels once the first `k` entries are written.
pub open spec fn spec_levels_after(entries: Seq<ListEntry>, k: int) -> Seq<(bool, int)>
    decreases k,
{
    if k <= 0 {
        Seq::empty()
    } else {
        spec_match_levels(spec_levels_after(entries, k - 1), entries[k - 1].markers@).0
    }
}

/// Whether every number the levels take while the entries are written
/// fits in a `usize`.
pub open spec fn spec_levels_fit(entries: Seq<ListEntry>) -> bool {
    forall|k: int, i: int|
        0 <= k <= entries.len() && 0 <= i < spec_levels_after(entries, k).len()
            ==> #[trigger] spec_levels_after(entries, k)[i].1 <= usize::MAX
}

/// HTML of an entry's checkbox.
pub open spec fn spec_checkbox_html(bullet: BulletMarker) -> Seq<char> {
    match bullet {
        BulletMarker::Bullet => Seq::empty(),
        BulletMarker::Checkbox(CheckboxState::Unchecked) =>
            "<input type=\"checkbox\" class=\"checkbox-unchecked\" onclick=\"return false;\">"@,
        BulletMarker::Checkbox(CheckboxState::Partial) =>
            "<input type=\"checkbox\" class=\"checkbox-partial\" onclick=\"return false;\">"@,
        BulletMarker::Checkbox(CheckboxState::Checked) =>
            "<input type=\"checkbox\" class=\"checkbox-checked\" onclick=\"return false;\" checked>"@,
    }
}

/// HTML of the first `k` entries, whose contents give `contents`.
pub open spec fn spec_list_body(entries: Seq<ListEntry>, contents: Seq<Seq<char>>, k: int) -> Seq<char>
    decreases k,
{
    if k <= 0 {
        Seq::empty()
    } else {
        let step = spec_match_levels(spec_levels_after(entries, k - 1), entries[k - 1].markers@);
        let open = if step.2 {
            "<li value=\""@ + spec_decimal(step.0.last().1 as nat) + "\">"@
        } else {
            "<li>"@
        };
        spec_list_body(entries, contents, k - 1) + step.1 + open + spec_checkbox_html(entries[k - 1].bullet)
            + contents[k - 1] + "</li>"@
    }
}

/// HTML of the list whose entries' contents give `contents`: the entries,
/// then the closing tags of every level left on the stack.
pub open spec fn spec_list_html(entries: Seq<ListEntry>, contents: Seq<Seq<char>>) -> Seq<char> {
    let n = entries.len() as int;
    spec_list_body(entries, contents, n) + spec_match_levels(spec_levels_after(entries, n), Seq::empty()).1
}

/// The open levels as integers.
pub open spec fn levels_view(stack: Seq<(bool, usize)>) -> Seq<(bool, int)> {
    stack.map_values(|p: (bool, usize)| (p.0, p.1 as int))
}

/// Writes the tag of a level.
fn push_level_tag(out: &mut Vec<char>, numbered: bool, close: bool)
    ensures
        final(out)@ == old(out)@ + spec_level_tag(numbered, close),
{
    if close {
        if numbered { push_str(out, "</ol>") } else { push_str(out, "</ul>") }
    } else {
        if numbered { push_str(out, "<ol>") } else { push_str(out, "<ul>") }
    }
}

/// Applies the step from the open levels `stack` to the levels `target`
/// (see `spec_match_levels`): writes its tags, and gives whether the entry
/// is numbered.
fn match_levels(stack: &mut Vec<(bool, usize)>, target: &[ListMarker], out: &mut Vec<char>) -> (numbered: bool)
    requires
        forall|i: int|
            0 <= i < spec_match_levels(levels_view(old(stack)@), target@).0.len()
                ==> #[trigger] spec_match_levels(levels_view(old(stack)@), target@).0[i].1 <= usize::MAX,
    ensures
        levels_view(final(stack)@) == spec_match_levels(levels_view(old(stack)@), target@).0,
        final(out)@ == old(out)@ + spec_match_levels(levels_view(old(stack)@), target@).1,
        numbered == spec_match_levels(levels_view(old(stack)@), target@).2,
        numbered ==> final(stack)@.len() > 0,
{
    let ghost sv = levels_view(stack@);
    let ghost o = out@;
    let mut m: usize = 0;
    while m < target.len() && m < stack.len() && stack[m].0 == target[m].numbered
        invariant
            0 <= m <= target@.len(),
            m <= stack@.len(),
            sv == levels_view(stack@),
            spec_shared(sv, target@, m as int) == spec_shared(sv, target@, 0),
        decreases target@.len() - m,
    {
        m += 1;
    }
    assert(spec_shared(sv, target@, 0) == m);
    if m == stack.len() && m != 0 {
        let (numbered, number) = stack[m - 1];
        let ghost next = spec_match_levels(sv, target@).0;
        assert(next[m - 1].1 <= usize::MAX);
        let advanced = number + target[m - 1].offset;
        stack.set(m - 1, (numbered, advanced));
        assert(levels_view(stack@) =~= next);
        assert(out@ =~= o + Seq::<char>::empty());
        return true;
    }
    let mut i: usize = stack.len();
    assert(sv.subrange(0, i as int) =~= sv);
    while i > m
        invariant
            m <= i <= stack@.len(),
            sv == levels_view(stack@),
            out@ + spec_close_tags(sv.subrange(0, i as int), m as int) == o + spec_close_tags(sv, m as int),
        decreases i,
    {
        let ghost before = out@;
        push_level_tag(out, stack[i - 1].0, true);
        proof {
            let sub = sv.subrange(0, i as int);
            assert(sub.drop_last() =~= sv.subrange(0, i - 1));
            assert(sub.last() == sv[i - 1]);
            assert(spec_close_tags(sub, m as int) == spec_level_tag(sv[i - 1].0, true)
                + spec_close_tags(sv.subrange(0, i - 1), m as int));
            assert(out@ + spec_close_tags(sv.subrange(0, i - 1), m as int)
                =~= before + spec_close_tags(sub, m as int));
        }
        i -= 1;
    }
    assert(out@ =~= o + spec_close_tags(sv, m as int));
    let ghost closed = out@;
    let mut j: usize = m;
    assert(target@.subrange(0, m as int).len() <= m);
    while j < target.len()
        invariant
            m <= j <= target@.len(),
            levels_view(stack@) == sv + target@.subrange(m as int, j as int).map_values(
                |t: ListMarker| (t.numbered, t.offset as int),
            ),
            out@ == closed + spec_open_tags(target@.subrange(0, j as int), m as int),
        decreases target@.len() - j,
    {
        let t = target[j];
        let ghost lv = levels_view(stack@);
        stack.push((t.numbered, t.offset));
        push_level_tag(out, t.numbered, false);
        proof {
            let f = |t: ListMarker| (t.numbered, t.offset as int);
            assert(target@.subrange(m as int, j + 1).map_values(f)
                =~= target@.subrange(m as int, j as int).map_values(f).push((t.numbered, t.offset as int)));
            assert(levels_view(stack@) =~= lv.push((t.numbered, t.offset as int)));
            let sub = target@.subrange(0, j + 1);
            assert(sub.drop_last() =~= target@.subrange(0, j as int));
            assert(sub.last() == t);
        }
        j += 1;
    }
    assert(target@.subrange(0, j as int) =~= target@);
    false
}

impl List {
    /// Adds an entry at the end of the list.
    pub fn add_entry(&mut self, entry: ListEntry)
        ensures
            final(self).entries@ == old(self).entries@.push(entry),
            final(self).location == old(self).location,
    {
        self.entries.push(entry);
    }

    /// HTML of the list whose entries' contents give `contents`, one for
    /// each entry in order.
    pub fn compile(&self, contents: &[String]) -> (r: String)
        requires
            contents@.len() == self.entries@.len(),
            spec_levels_fit(self.entries@),
        ensures
            r@ == spec_list_html(self.entries@, contents@.map_values(|c: String| c@)),
    {
        proof {
            reveal_strlit("<li value=\"");
            reveal_strlit("\">");
            reveal_strlit("<li>");
            reveal_strlit("</li>");
        }
        let ghost es = self.entries@;
        let ghost cs = contents@.map_values(|c: String| c@);
        let mut stack: Vec<(bool, usize)> = Vec::new();
        let mut out: Vec<char> = Vec::new();
        let mut k: usize = 0;
        assert(levels_view(stack@) =~= spec_levels_after(es, 0));
        while k < self.entries.len()
            invariant
                0 <= k <= es.len(),
                es == self.entries@,
                cs == contents@.map_values(|c: String| c@),
                contents@.len() == es.len(),
                spec_levels_fit(es),
                levels_view(stack@) == spec_levels_after(es, k as int),
                out@ == spec_list_body(es, cs, k as int),
            decreases es.len() - k,
        {
            let entry = &self.entries[k];
            proof {
                assert forall|i: int|
                    0 <= i < spec_match_levels(levels_view(stack@), entry.markers@).0.len()
                    implies #[trigger] spec_match_levels(levels_view(stack@), entry.markers@).0[i].1 <= usize::MAX by {
                    assert(spec_levels_after(es, k + 1)[i].1 <= usize::MAX);
                }
            }
            let ghost before = out@;
            let numbered = match_levels(&mut stack, entry.markers.as_slice(), &mut out);
            let ghost step = spec_match_levels(spec_levels_after(es, k as int), es[k as int].markers@);
            let ghost tags = out@;
            if numbered {
                let (_, number) = stack[stack.len() - 1];
                push_str(&mut out, "<li value=\"");
                push_decimal(&mut out, number);
                push_str(&mut out, "\">");
                proof {
                    assert(levels_view(stack@).last().1 == number as int);
                }
            } else {
                push_str(&mut out, "<li>");
            }
            let ghost opened = out@;
            match entry.bullet {
                BulletMarker::Bullet => {},
                BulletMarker::Checkbox(CheckboxState::Unchecked) => {
                    push_str(&mut out, "<input type=\"checkbox\" class=\"checkbox-unchecked\" onclick=\"return false;\">");
                },
                BulletMarker::Checkbox(CheckboxState::Partial) => {
                    push_str(&mut out, "<input type=\"checkbox\" class=\"checkbox-partial\" onclick=\"return false;\">");
                },
                BulletMarker::Checkbox(CheckboxState::Checked) => {
                    push_str(&mut out, "<input type=\"checkbox\" class=\"checkbox-checked\" onclick=\"return false;\" checked>");
                },
            }
            proof {
                assert(out@ == opened + spec_checkbox_html(es[k as int].bullet));
            }
            push_str(&mut out, contents[k].as_str());
            push_str(&mut out, "</li>");
            proof {
                assert(cs[k as int] == contents@[k as int]@);
                assert(out@ =~= spec_list_body(es, cs, k + 1));
            }
            k += 1;
        }
        proof {
            let n = es.len() as int;
            assert forall|i: int|
                0 <= i < spec_match_levels(levels_view(stack@), Seq::<ListMarker>::empty()).0.len()
                implies #[trigger] spec_match_levels(levels_view(stack@), Seq::<ListMarker>::empty()).0[i].1
                <= usize::MAX by {
                assert(spec_opened(Seq::<ListMarker>::empty(), 0) =~= Seq::<(bool, int)>::empty());
                assert(spec_levels_after(es, n)[i].1 <= usize::MAX);
            }
        }
        let none: Vec<ListMarker> = Vec::new();
        match_levels(&mut stack, none.as_slice(), &mut out);
        chars_to_string(out.as_slice())
    }
}

} // verus!
