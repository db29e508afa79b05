//! The document parser: it looks for the earliest match of the rules at the
//! cursor, turns the text before it into a text element, lets the rule
//! build its elements, and goes on after the match.
use vstd::prelude::*;

use crate::document::{
    spec_report_kind, doc_wf, lemma_flatten_one, spec_defines_reference, spec_fits_paragraph, spec_flatten, spec_kind,
    spec_last_definition, spec_location, spec_pushable, Document, ElemKind, Element, Report,
    ReportCode, ReportKind, Token,
};
use crate::elements::internal_link::{
    internal_link_match_wf, refname_view, spec_internal_link_at, spec_internal_link_result, spec_refname_text, InternalLink, InternalLinkMatch, InternalLinkRule,
};
use crate::elements::latex::{
    latex_match_wf, latex_schema, opt_string_view, spec_latex_at, spec_latex_result, LatexMatch, LatexRule,
};
use crate::elements::layout::{
    layout_match_wf, layout_schema, spec_any_layout_at, spec_layout_report_span, spec_layout_step, stack_view, LayoutMatch,
    LayoutRule, LayoutState, LayoutType,
};
use crate::elements::link::{link_match_wf, spec_link_at, spec_link_result, Link, LinkMatch, LinkRule};
use crate::elements::list::{
    entry_match_wf, flags, list_schema, parse_depth, push_markers, spec_entry_at, spec_entry_end, spec_entry_props,
    spec_markers, spec_parse_depth, EntryMatch, ListEntry, ListMarker, ListRule, MarkerKind,
};
use crate::elements::lua::{
    inline_lua_match_wf, inline_lua_schema, lua_block_match_wf, lua_block_schema, spec_any_inline_lua_at,
    spec_inline_lua_result, spec_lua_block_at, spec_lua_block_result, InlineLuaMatch, InlineLuaRule, LuaBlockMatch, LuaEvalKind, LuaPostProcess, LuaRule,
};
use crate::elements::media::{
    media_match_wf, media_schema, opt_view, spec_media_at, spec_media_result, MediaGroup, MediaMatch, MediaRule,
    MediaType, Medium,
};
use crate::elements::paragraph::{spec_break_at, spec_ends_inline, Paragraph, ParagraphRule};
use crate::elements::raw::{
    raw_kind_match_wf, raw_match_wf, raw_schema, spec_raw_at, spec_raw_kind_at, spec_raw_kind_result,
    spec_raw_result, spec_raw_warning, RawKindMatch, RawMatch, RawRule,
};
use crate::elements::reference::{
    ExternalReferenceStyle, reference_match_wf, reference_schema, spec_reference_at, spec_reference_result, target_view, RefTarget,
    ReferenceElement, ReferenceMatch, ReferenceRule,
};
use crate::elements::script::{
    kinds_view, script_match_wf, spec_eval_kinds, spec_script_at, spec_script_result, Script, ScriptKind, ScriptMatch, ScriptRule,
};
use crate::elements::section::{
    lemma_section_match_wf, section_match_wf, spec_section_at, spec_section_result, Section, SectionMatch,
    SectionRule,
};
use crate::elements::style::{spec_style_at, StyleRule, StyleState};
use crate::elements::text::Text;
use crate::interop::{chars_to_string, str_to_chars};
use crate::properties::schema_view;
use crate::semantics::{lsp_tokens, spec_added_all, spec_all_pieces, spec_encode, LspToken, SemToken, Semantics};
use crate::text::{
    embed_positions, escape_text, lemma_escape_text_len, process_text, slice_to_vec, spec_escape_text, spec_process_text,
};

verus! {

/// How a text is parsed: `paragraph_only` leaves out the rules of block
/// structure (lists and layouts), for text that must give one paragraph.
#[derive(Clone, Copy, PartialEq, Eq, Debug, Structural)]
pub struct ParseMode {
    pub paragraph_only: bool,
}

/// The rules, in the order in which they are consulted.
#[derive(Clone, Copy, PartialEq, Eq, Debug, Structural)]
pub enum RuleId {
    Paragraph,
    Script,
    Raw,
    List,
    Latex,
    Media,
    Layout,
    Style,
    Section,
    Link,
    Reference,
    InternalLink,
    LuaBlock,
    InlineLua,
}

/// Rank of a rule: among matches that start together, the lowest rank wins.
pub open spec fn spec_rank(r: RuleId) -> int {
    match r {
        RuleId::Paragraph => 0,
        RuleId::Script => 1,
        RuleId::Raw => 2,
        RuleId::List => 3,
        RuleId::Latex => 4,
        RuleId::Media => 5,
        RuleId::Layout => 6,
        RuleId::Style => 7,
        RuleId::Section => 8,
        RuleId::Link => 9,
        RuleId::Reference => 10,
        RuleId::InternalLink => 11,
        RuleId::LuaBlock => 12,
        RuleId::InlineLua => 13,
    }
}

/// The rules of NML, in the order in which the parser consults them.
pub fn register() -> (r: Vec<RuleId>)
    ensures
        r@.len() == 14,
        forall|i: int| 0 <= i < 14 ==> spec_rank(#[trigger] r@[i]) == i,
{
    let mut r: Vec<RuleId> = Vec::new();
    r.push(RuleId::Paragraph);
    r.push(RuleId::Script);
    r.push(RuleId::Raw);
    r.push(RuleId::List);
    r.push(RuleId::Latex);
    r.push(RuleId::Media);
    r.push(RuleId::Layout);
    r.push(RuleId::Style);
    r.push(RuleId::Section);
    r.push(RuleId::Link);
    r.push(RuleId::Reference);
    r.push(RuleId::InternalLink);
    r.push(RuleId::LuaBlock);
    r.push(RuleId::InlineLua);
    r
}

/// Whether rule `r` is consulted in `mode`.
pub open spec fn spec_enabled(r: RuleId, mode: ParseMode) -> bool {
    !(mode.paragraph_only && (r == RuleId::List || r == RuleId::Layout || r == RuleId::LuaBlock || r == RuleId::InlineLua))
}

/// Whether rule `r` matches at `q`.
pub open spec fn spec_rule_at(s: Seq<char>, r: RuleId, q: int) -> bool {
    match r {
        RuleId::Paragraph => spec_break_at(s, q) is Some,
        RuleId::Script => spec_script_at(s, q) is Some,
        RuleId::Raw => spec_raw_at(s, q) is Some || spec_raw_kind_at(s, q) is Some,
        RuleId::List => spec_entry_at(s, q) is Some,
        RuleId::Latex => spec_latex_at(s, q) is Some,
        RuleId::Media => spec_media_at(s, q) is Some,
        RuleId::Layout => spec_any_layout_at(s, q) is Some,
        RuleId::Style => spec_style_at(s, q) is Some,
        RuleId::Section => spec_section_at(s, q) is Some,
        RuleId::Link => spec_link_at(s, q) is Some,
        RuleId::Reference => spec_reference_at(s, q) is Some,
        RuleId::InternalLink => spec_internal_link_at(s, q) is Some,
        RuleId::LuaBlock => spec_lua_block_at(s, q) is Some,
        RuleId::InlineLua => spec_any_inline_lua_at(s, q) is Some,
    }
}

/// A match of one of the rules.
pub enum RuleMatch {
    /// A run of two newlines or more.
    Paragraph(Token),
    Script(ScriptMatch),
    Raw(RawMatch),
    RawKind(RawKindMatch),
    List(EntryMatch),
    Latex(LatexMatch),
    Media(MediaMatch),
    Layout(LayoutMatch),
    /// A style marker and its style.
    Style(Token, usize),
    Section(SectionMatch),
    Link(LinkMatch),
    Reference(ReferenceMatch),
    InternalLink(InternalLinkMatch),
    LuaBlock(LuaBlockMatch),
    InlineLua(InlineLuaMatch),
}

pub open spec fn spec_match_rule(m: RuleMatch) -> RuleId {
    match m {
        RuleMatch::Paragraph(_) => RuleId::Paragraph,
        RuleMatch::Script(_) => RuleId::Script,
        RuleMatch::Raw(_) => RuleId::Raw,
        RuleMatch::RawKind(_) => RuleId::Raw,
        RuleMatch::List(_) => RuleId::List,
        RuleMatch::Latex(_) => RuleId::Latex,
        RuleMatch::Media(_) => RuleId::Media,
        RuleMatch::Layout(_) => RuleId::Layout,
        RuleMatch::Style(_, _) => RuleId::Style,
        RuleMatch::Section(_) => RuleId::Section,
        RuleMatch::Link(_) => RuleId::Link,
        RuleMatch::Reference(_) => RuleId::Reference,
        RuleMatch::InternalLink(_) => RuleId::InternalLink,
        RuleMatch::LuaBlock(_) => RuleId::LuaBlock,
        RuleMatch::InlineLua(_) => RuleId::InlineLua,
    }
}

/// The range a match covers.
pub open spec fn spec_match_range(m: RuleMatch) -> Token {
    match m {
        RuleMatch::Paragraph(t) => t,
        RuleMatch::Script(x) => x.whole,
        RuleMatch::Raw(x) => x.whole,
        RuleMatch::RawKind(x) => x.whole,
        RuleMatch::List(x) => x.whole,
        RuleMatch::Latex(x) => x.whole,
        RuleMatch::Media(x) => x.whole,
        RuleMatch::Layout(x) => x.whole,
        RuleMatch::Style(t, _) => t,
        RuleMatch::Section(x) => x.whole,
        RuleMatch::Link(x) => x.whole,
        RuleMatch::Reference(x) => x.whole,
        RuleMatch::InternalLink(x) => x.whole,
        RuleMatch::LuaBlock(x) => x.whole,
        RuleMatch::InlineLua(x) => x.whole,
    }
}

/// `m` is what its rule matches at its start.
pub open spec fn spec_match_valid(s: Seq<char>, m: RuleMatch) -> bool {
    let p = spec_match_range(m).start as int;
    match m {
        RuleMatch::Paragraph(t) => spec_break_at(s, p) == Some(t.end as int) && t.start + 2 <= t.end <= s.len(),
        RuleMatch::Script(x) => spec_script_at(s, p) == Some(x) && script_match_wf(s, x),
        RuleMatch::Raw(x) => spec_raw_at(s, p) == Some(x) && raw_match_wf(s, x),
        RuleMatch::RawKind(x) => spec_raw_at(s, p) is None && spec_raw_kind_at(s, p) == Some(x)
            && raw_kind_match_wf(s, x),
        RuleMatch::List(x) => spec_entry_at(s, p) == Some(x) && entry_match_wf(s, x),
        RuleMatch::Latex(x) => spec_latex_at(s, p) == Some(x) && latex_match_wf(s, x),
        RuleMatch::Media(x) => spec_media_at(s, p) == Some(x) && media_match_wf(s, x),
        RuleMatch::Layout(x) => spec_any_layout_at(s, p) == Some(x) && layout_match_wf(s, x),
        RuleMatch::Style(t, k) => spec_style_at(s, p) == Some((k, (t.end - t.start) as usize)) && t.start
            < t.end <= s.len(),
        RuleMatch::Section(x) => spec_section_at(s, p) == Some(x) && section_match_wf(s, x),
        RuleMatch::Link(x) => spec_link_at(s, p) == Some(x) && link_match_wf(s, x),
        RuleMatch::Reference(x) => spec_reference_at(s, p) == Some(x) && reference_match_wf(s, x),
        RuleMatch::InternalLink(x) => spec_internal_link_at(s, p) == Some(x) && internal_link_match_wf(s, x),
        RuleMatch::LuaBlock(x) => spec_lua_block_at(s, p) == Some(x) && lua_block_match_wf(s, x),
        RuleMatch::InlineLua(x) => spec_any_inline_lua_at(s, p) == Some(x) && inline_lua_match_wf(s, x),
    }
}

/// Every match ends after its start and within the text.
pub open spec fn spec_match_advances(s: Seq<char>, m: RuleMatch) -> bool {
    spec_match_range(m).start < spec_match_range(m).end <= s.len()
}

/// Whether `e` is a text element.
pub open spec fn is_text(e: Element) -> bool {
    e is Text
}

/// No rule enabled in `mode` matches within `t`.
pub open spec fn spec_clean(s: Seq<char>, t: Token, mode: ParseMode) -> bool {
    forall|x: RuleId, q: int| spec_enabled(x, mode) && t.start <= q < t.end ==> !spec_rule_at(s, x, q)
}

/// Every text element of `content` lies where no rule enabled in `mode`
/// matches.
pub open spec fn texts_clean(s: Seq<char>, content: Seq<Element>, mode: ParseMode) -> bool {
    forall|k: int| 0 <= k < content.len() && #[trigger] is_text(content[k]) ==> spec_clean(s, spec_location(content[k]), mode)
}

/// Every text element of `new` is one of `old`, at the same place, or is
/// clean: no rule enabled in `mode` matches within it.
pub open spec fn texts_added_clean(s: Seq<char>, old: Seq<Element>, new: Seq<Element>, mode: ParseMode) -> bool {
    forall|k: int| 0 <= k < new.len() && #[trigger] is_text(new[k])
        ==> (k < old.len() && new[k] == old[k]) || spec_clean(s, spec_location(new[k]), mode)
}

/// The reports `a` are the first reports of `b`.
pub open spec fn reports_grow(a: Seq<Report>, b: Seq<Report>) -> bool {
    &&& a.len() <= b.len()
    &&& forall|i: int| 0 <= i < a.len() ==> #[trigger] b[i] == a[i]
}

/// The elements of `old` are still in `new`, at the same places; a group
/// of media may gain media.
pub open spec fn elems_stay(old: Seq<Element>, new: Seq<Element>) -> bool {
    &&& old.len() <= new.len()
    &&& forall|k: int| 0 <= k < old.len() && !(#[trigger] old[k] is Media) ==> new[k] == old[k]
}

pub proof fn lemma_elems_stay_trans(a: Seq<Element>, b: Seq<Element>, c: Seq<Element>)
    requires
        elems_stay(a, b),
        elems_stay(b, c),
    ensures
        elems_stay(a, c),
{
    assert forall|k: int| 0 <= k < a.len() && !(#[trigger] a[k] is Media) implies c[k] == a[k] by {
        assert(b[k] == a[k]);
        assert(!(b[k] is Media));
    }
}

proof fn lemma_elems_stay_append(a: Seq<Element>, x: Seq<Element>)
    ensures
        elems_stay(a, a + x),
{
    assert forall|k: int| 0 <= k < a.len() && !(#[trigger] a[k] is Media) implies (a + x)[k] == a[k] by {}
}

/// `new` is `old` with the element `e` added to the document (see
/// `ParseState::push`): the reports gain only those of the styles that `e`
/// closes.
pub open spec fn spec_gains(old: ParseState, new: ParseState, e: Element) -> bool {
    &&& spec_flatten(new.doc.content@) == spec_flatten(old.doc.content@) + spec_flatten(seq![e])
    &&& new.reports@ == old.reports@ + spec_closing_reports(old.doc.content@, old.styles, e)
}

/// The last element of the flattened document of `st`.
pub open spec fn spec_last_elem(st: ParseState) -> Element {
    spec_flatten(st.doc.content@).last()
}

/// `new` is `old` with one report of code `code` added, and no element.
pub open spec fn spec_refused(old: ParseState, new: ParseState, code: ReportCode) -> bool {
    &&& spec_flatten(new.doc.content@) == spec_flatten(old.doc.content@)
    &&& new.reports@.len() == old.reports@.len() + 1
    &&& new.reports@.drop_last() == old.reports@
    &&& new.reports@.last().code == code
    &&& new.reports@.last().kind == spec_report_kind(code)
}

/// What a reference element refers to, with its caption.
pub open spec fn spec_element_target(e: Element) -> Option<(RefTarget, Option<Seq<char>>)> {
    match e {
        Element::InternalReference(r) => Some(target_view(&ReferenceElement::Internal(r))),
        Element::ExternalReference(r) => Some(target_view(&ReferenceElement::External(r))),
        _ => None,
    }
}

/// What applying the match `m` does to the state `old`: the element the
/// rule gives is added (with the reports of the styles it closes, and for a
/// section the warning of a name already defined), or the report that
/// refuses the match. Media, links and lists are described by their own
/// functions below.
pub open spec fn spec_apply_effect(s: Seq<char>, m: RuleMatch, old: ParseState, new: ParseState) -> bool {
    match m {
        RuleMatch::Raw(x) => match spec_raw_result(s, x) {
                    Ok(v) => spec_last_elem(new) matches Element::Raw(r) && (r.kind, r.content@) == v
                        && r.location == x.whole
                        && spec_flatten(new.doc.content@) == spec_flatten(old.doc.content@).push(Element::Raw(r))
                        && new.reports@ == old.reports@ + spec_raw_warning(s, x)
                            + spec_closing_reports(old.doc.content@, old.styles, Element::Raw(r)),
                    Err(c) => spec_flatten(new.doc.content@) == spec_flatten(old.doc.content@)
                        && new.reports@.len() == old.reports@.len() + spec_raw_warning(s, x).len() + 1
                        && new.reports@.drop_last() == old.reports@ + spec_raw_warning(s, x)
                        && new.reports@.last().code == c
                        && new.reports@.last().kind == spec_report_kind(c),
                },
        RuleMatch::RawKind(x) => match spec_raw_kind_result(s, x) {
                    Ok(v) => spec_gains(old, new, spec_last_elem(new))
                        && (spec_last_elem(new) matches Element::Raw(r) && (r.kind, r.content@) == v && r.location == x.whole),
                    Err(c) => spec_refused(old, new, c),
                },
        RuleMatch::Style(t, k) => spec_gains(old, new, spec_last_elem(new))
                    && (spec_last_elem(new) matches Element::Style(e) && e.kind == k && e.location == t
                    && e.close == old.styles.toggled@[k as int] is Some
                    && new.styles.toggled@ == old.styles.toggled@.update(
                        k as int,
                        if e.close { None } else { Some(t) },
                    )),
        RuleMatch::Reference(x) => match spec_reference_result(s, x) {
                    Ok(v) => spec_gains(old, new, spec_last_elem(new))
                        && spec_element_target(spec_last_elem(new)) == Some(v)
                        && spec_location(spec_last_elem(new)) == x.whole,
                    Err(c) => spec_refused(old, new, c),
                },
        RuleMatch::Media(x) => spec_media_effect(s, x, old, new),
        RuleMatch::Section(x) => match spec_section_result(s, x) {
                    Ok(v) => (spec_last_elem(new) matches Element::Section(sec)
                        && (sec.depth, sec.kind, match sec.reference {
                            Some(r) => Some(r@),
                            None => None,
                        }, sec.title@) == v && sec.location == x.whole
                        && spec_flatten(new.doc.content@) == spec_flatten(old.doc.content@).push(Element::Section(sec))
                        && new.reports@ == old.reports@ + (if spec_redefines(old.doc.content@, sec.reference) {
                            seq![Report {
                                kind: ReportKind::Warning,
                                code: ReportCode::DuplicateReferenceName,
                                span: match x.refname {
                                    Some(t) => t,
                                    None => x.whole,
                                },
                            }]
                        } else {
                            Seq::<Report>::empty()
                        }) + spec_closing_reports(old.doc.content@, old.styles, Element::Section(sec))),
                    Err(c) => spec_flatten(new.doc.content@) == spec_flatten(old.doc.content@)
                        && new.reports@.len() == old.reports@.len() + spec_section_dup_warning(s, x, old.doc.content@, c).len() + 1
                        && new.reports@.drop_last() == old.reports@ + spec_section_dup_warning(s, x, old.doc.content@, c)
                        && new.reports@.last().code == c && new.reports@.last().kind == spec_report_kind(c),
                },
        RuleMatch::Paragraph(t) => {
            &&& new.doc.content@.len() == old.doc.content@.len() + 1
            &&& new.doc.content@.drop_last() == old.doc.content@
            &&& (new.doc.content@.last() matches Element::Paragraph(p)
                && p.location == Token { start: t.start, end: (t.end - 1) as usize } && p.content@.len() == 0)
            &&& new.reports@ == old.reports@ + spec_closing_reports(old.doc.content@, old.styles, new.doc.content@.last())
        },
        RuleMatch::Script(x) => match spec_script_result(s, x) {
            Ok(v) => spec_gains(old, new, spec_last_elem(new))
                && (spec_last_elem(new) matches Element::Script(sc) && (sc.kernel@, sc.kind, sc.code@) == v
                && sc.location == x.whole),
            Err(c) => spec_refused(old, new, c),
        },
        RuleMatch::Latex(x) => match spec_latex_result(s, x) {
            Ok(v) => spec_last_elem(new) matches Element::Latex(l)
                && (l.kind, l.env@, l.tex@, opt_string_view(l.caption)) == v
                && l.location == x.whole && l.mathmode == (x.index == 1)
                && spec_flatten(new.doc.content@) == spec_flatten(old.doc.content@).push(Element::Latex(l))
                && new.reports@ == old.reports@ + spec_empty_tex(x, l.tex@)
                    + spec_closing_reports(old.doc.content@, old.styles, Element::Latex(l)),
            Err(c) => spec_refused(old, new, c),
        },
        RuleMatch::Layout(x) => match spec_layout_step(s, x, stack_view(old.layouts.stack@)) {
            Ok(v) => spec_gains(old, new, spec_last_elem(new))
                && (spec_last_elem(new) matches Element::Layout(l)
                && (l.token, l.layout, l.id, l.style@, stack_view(new.layouts.stack@)) == v && l.location == x.whole),
            Err(c) => spec_refused(old, new, c)
                && new.reports@.last() == (Report { kind: ReportKind::Error, code: c, span: spec_layout_report_span(x, c) })
                && stack_view(new.layouts.stack@) == stack_view(old.layouts.stack@),
        },
        RuleMatch::LuaBlock(x) => match spec_lua_block_result(s, x).0 {
            Ok(v) => spec_gains(old, new, spec_last_elem(new))
                && (spec_last_elem(new) matches Element::Script(sc) && sc.kernel@ == v.0 && sc.code@ == v.1
                && sc.kind == ScriptKind::Exec
                && sc.location == (Token { start: x.whole.start, end: spec_lua_block_result(s, x).1 as usize })),
            Err(c) => spec_refused(old, new, c),
        },
        RuleMatch::InlineLua(x) => match spec_inline_lua_result(s, x) {
            Ok(v) => spec_gains(old, new, spec_last_elem(new)) && if x.index == 0 {
                spec_last_elem(new) matches Element::Script(sc) && sc.kernel@ == v.0
                    && sc.kind == spec_eval_script_kind(v.1) && sc.code@ == v.2 && sc.location == x.whole
            } else {
                spec_last_elem(new) matches Element::LuaPostProcess(pp) && pp.kernel@ == v.0
                    && pp.eval_kind == v.1 && pp.code@ == v.2 && pp.location == x.whole
            },
            Err(c) => spec_refused(old, new, c),
        },
        RuleMatch::List(x) => spec_list_effect(s, x, old, new) && exists|q: int| spec_list_run(s, x, old, new, q),
        RuleMatch::Link(x) => spec_link_effect(s, x, old, new),
        RuleMatch::InternalLink(x) => spec_internal_link_effect(s, x, old, new),
    }
}

/// The numbering of the list entry that ends the document of `st`, if it
/// ends with one.
pub open spec fn spec_prev_numbering(st: ParseState) -> Option<Seq<(bool, usize)>> {
    let c = st.doc.content@;
    if c.len() > 0 && c.last() is ListEntry {
        match c.last() {
            Element::ListEntry(e) => Some(e.numbering@),
            _ => None,
        }
    } else {
        None
    }
}

/// The levels open in `st`: those of the list entry that ends its
/// document, none otherwise.
pub open spec fn spec_open_levels(st: ParseState) -> Seq<(bool, usize)> {
    match spec_prev_numbering(st) {
        Some(n) => n,
        None => Seq::empty(),
    }
}

/// `b` is `a` followed by the list markers `ms` (kind, numbered), each over
/// `loc`.
pub open spec fn markers_added(a: Seq<Element>, b: Seq<Element>, ms: Seq<(MarkerKind, bool)>, loc: Token) -> bool {
    &&& b.len() == a.len() + ms.len()
    &&& b.subrange(0, a.len() as int) == a
    &&& forall|i: int| 0 <= i < ms.len() ==> (b[a.len() + i] matches Element::ListMarker(mk) && mk.location == loc
        && mk.kind == (#[trigger] ms[i]).0 && mk.numbered == ms[i].1)
}

proof fn lemma_markers_added_push(a: Seq<Element>, b: Seq<Element>, ms: Seq<(MarkerKind, bool)>, loc: Token, mk: ListMarker)
    requires
        markers_added(a, b, ms, loc),
        mk.location == loc,
    ensures
        markers_added(a, b.push(Element::ListMarker(mk)), ms.push((mk.kind, mk.numbered)), loc),
{
    let b2 = b.push(Element::ListMarker(mk));
    let ms2 = ms.push((mk.kind, mk.numbered));
    assert(b2.subrange(0, a.len() as int) =~= b.subrange(0, a.len() as int));
    assert forall|i: int| 0 <= i < ms2.len() implies (b2[a.len() + i] matches Element::ListMarker(m2) && m2.location == loc
        && m2.kind == (#[trigger] ms2[i]).0 && m2.numbered == ms2[i].1) by {
        if i < ms.len() {
            assert(ms2[i] == ms[i]);
            assert(b2[a.len() + i] == b[a.len() + i]);
        }
    }
}

/// What the entry `m` of a list does to the state `a`, giving `c`: the
/// markers that take the open levels to the entry's levels (see
/// `spec_markers`), over the entry, then the entry: its levels (see
/// `spec_parse_depth`), its bullet, and its text (continuation lines
/// included) parsed as the content of one paragraph (none when it is not
/// one paragraph).
pub open spec fn spec_list_entry(s: Seq<char>, m: EntryMatch, a: ParseState, c: ParseState) -> bool {
    match spec_entry_props(s, m, spec_prev_bullet(a)) {
        Err(_) => false,
        Ok((offset, bullet)) => {
            let depth = spec_parse_depth(s.subrange(m.bullets.start as int, m.bullets.end as int), spec_prev_numbering(a), offset);
            let end = spec_entry_end(s, m.whole.end as int);
            let loc = Token { start: m.content.start, end: end as usize };
            let ms = spec_markers(flags(spec_open_levels(a)), flags(depth));
            let fa = spec_flatten(a.doc.content@);
            let fc = spec_flatten(c.doc.content@);
            &&& m.content.start <= end <= s.len()
            &&& fc.len() > 0
            &&& markers_added(fa, fc.drop_last(), ms, loc)
            &&& c.doc.content@.len() > 0 && c.doc.content@.last() == fc.last()
            &&& fc.last() matches Element::ListEntry(e) && e.location == loc && e.numbering@ == depth
                && opt_view(e.bullet) == bullet
                && (exists|sub: ParseState| #[trigger] spec_parses_base(s.subrange(m.content.start as int, end), para_mode(), sub)
                    && e.content@ == match spec_single_paragraph(sub.doc.content@) {
                        Ok(v) => v,
                        Err(_) => Seq::<Element>::empty(),
                    })
        },
    }
}

/// What a list whose entry `m` comes next does to the state `a`, giving
/// `b`, parsing going on at `next`: an entry whose properties are refused
/// ends the list with that report; otherwise the entry is added (see
/// `spec_list_entry`), and the list goes on with the entry that follows
/// it, or ends there, closing the open levels at the end of the entry.
pub open spec fn spec_list_run(s: Seq<char>, m: EntryMatch, a: ParseState, b: ParseState, next: int) -> bool
    decreases s.len() - m.whole.start,
{
    if !(m.whole.start < m.whole.end <= s.len()) {
        false
    } else {
        match spec_entry_props(s, m, spec_prev_bullet(a)) {
            Err(c) => spec_refused(a, b, c) && next == m.whole.end,
            Ok(_) => exists|c: ParseState| #[trigger] spec_list_entry(s, m, a, c) && {
                let end = spec_entry_end(s, m.whole.end as int);
                match spec_entry_at(s, end) {
                    Some(m2) => m.whole.start < m2.whole.start <= s.len() && spec_list_run(s, m2, c, b, next),
                    None => next == end && markers_added(
                        spec_flatten(c.doc.content@),
                        spec_flatten(b.doc.content@),
                        spec_markers(flags(spec_open_levels(c)), flags(Seq::<(bool, usize)>::empty())),
                        Token { start: end as usize, end: end as usize },
                    ),
                }
            },
        }
    }
}

/// The bullet of the list entry that ends the document of `st`, if it ends
/// with one.
pub open spec fn spec_prev_bullet(st: ParseState) -> Option<Seq<char>> {
    let c = st.doc.content@;
    if c.len() > 0 && c.last() is ListEntry {
        match c.last() {
            Element::ListEntry(e) => opt_view(e.bullet),
            _ => None,
        }
    } else {
        None
    }
}

/// What a list does to the state `old`: the report that refuses its first
/// entry's properties; otherwise only list markers and entries are added.
pub open spec fn spec_list_effect(s: Seq<char>, m: EntryMatch, old: ParseState, new: ParseState) -> bool {
    match spec_entry_props(s, m, spec_prev_bullet(old)) {
        Err(c) => spec_refused(old, new, c),
        Ok(_) => forall|k: int| spec_flatten(old.doc.content@).len() <= k < spec_flatten(new.doc.content@).len()
            ==> (#[trigger] spec_flatten(new.doc.content@)[k] is ListMarker
            || spec_flatten(new.doc.content@)[k] is ListEntry),
    }
}

/// Only list markers and entries stand in `b` after the prefix `a`.
pub open spec fn list_added(a: Seq<Element>, b: Seq<Element>) -> bool {
    forall|k: int| a.len() <= k < b.len() ==> (#[trigger] b[k] is ListMarker || b[k] is ListEntry)
}

proof fn lemma_list_added_trans(a: Seq<Element>, b: Seq<Element>, c: Seq<Element>)
    requires
        list_added(a, b),
        list_added(b, c),
        elems_stay(b, c),
        a.len() <= b.len(),
    ensures
        list_added(a, c),
{
    assert forall|k: int| a.len() <= k < c.len() implies (#[trigger] c[k] is ListMarker || c[k] is ListEntry) by {
        if k >= b.len() {
            assert(c[k] is ListMarker || c[k] is ListEntry);
        } else {
            assert(b[k] is ListMarker || b[k] is ListEntry);
            assert(!(b[k] is Media));
            assert(c[k] == b[k]);
        }
    }
}

proof fn lemma_list_added_push(a: Seq<Element>, b: Seq<Element>, e: Element)
    requires
        list_added(a, b),
        a.len() <= b.len(),
        e is ListMarker || e is ListEntry,
    ensures
        list_added(a, b + spec_flatten(seq![e])),
{
    lemma_flatten_one(e);
    let c = b + spec_flatten(seq![e]);
    assert forall|k: int| a.len() <= k < c.len() implies (#[trigger] c[k] is ListMarker || c[k] is ListEntry) by {
        if k >= b.len() {
            assert(c[k] == e);
        } else {
            assert(c[k] == b[k]);
        }
    }
}

/// What a link does to the state `old`: the report that refuses it; or,
/// once its display has been parsed as a paragraph (whose reports come
/// first), the link to its url, or the error of a display that is not one
/// paragraph, over the display's range.
pub open spec fn spec_link_effect(s: Seq<char>, m: LinkMatch, old: ParseState, new: ParseState) -> bool {
    match spec_link_result(s, m) {
        Err(c) => spec_refused(old, new, c),
        Ok(v) => if 0 < m.display.start <= m.display.end <= s.len() {
            let d = s.subrange(m.display.start as int, m.display.end as int);
            exists|sub: ParseState| #[trigger] spec_parses_base(spec_escape_text('\\', "]("@, d), para_mode(), sub)
                && match spec_single_paragraph(sub.doc.content@) {
                    Ok(c) => spec_last_elem(new) matches Element::Link(l) && l.location == m.whole && l.url@ == v.1
                        && l.display@ == c
                        && spec_flatten(new.doc.content@) == spec_flatten(old.doc.content@).push(Element::Link(l)),
                    Err(_) => spec_flatten(new.doc.content@) == spec_flatten(old.doc.content@) && new.reports@.len() > 0
                        && new.reports@.last() == (Report {
                            kind: ReportKind::Error,
                            code: ReportCode::InvalidLinkDisplay,
                            span: m.display,
                        }),
                }
        } else {
            false
        },
    }
}

/// What an internal link does to the state `old`: the report that refuses
/// it; without a display, the link to the reference, showing its name;
/// with one, as for a link (see `spec_link_effect`).
pub open spec fn spec_internal_link_effect(s: Seq<char>, m: InternalLinkMatch, old: ParseState, new: ParseState) -> bool {
    match spec_internal_link_result(s, m) {
        Err(c) => spec_refused(old, new, c),
        Ok((name, None)) => spec_gains(old, new, spec_last_elem(new))
            && (spec_last_elem(new) matches Element::InternalLink(l) && l.location == m.whole
            && refname_view(l.refname) == name && l.display@.len() == 1
            && (l.display@[0] matches Element::Text(t) && t.location == m.whole
            && t.content@ == spec_refname_text(name))),
        Ok((name, Some(d))) => if 0 < d.start <= d.end <= s.len() {
            let t = s.subrange(d.start as int, d.end as int);
            exists|sub: ParseState| #[trigger] spec_parses_base(spec_escape_text('\\', "]"@, t), para_mode(), sub)
                && match spec_single_paragraph(sub.doc.content@) {
                    Ok(c) => spec_last_elem(new) matches Element::InternalLink(l) && l.location == m.whole
                        && refname_view(l.refname) == name && l.display@ == c
                        && spec_flatten(new.doc.content@) == spec_flatten(old.doc.content@).push(Element::InternalLink(l)),
                    Err(_) => spec_flatten(new.doc.content@) == spec_flatten(old.doc.content@) && new.reports@.len() > 0
                        && new.reports@.last() == (Report {
                            kind: ReportKind::Error,
                            code: ReportCode::InvalidInternalLinkDisplay,
                            span: d,
                        }),
                }
        } else {
            false
        },
    }
}

/// The error that an empty formula gives, over the formula's range.
pub open spec fn spec_empty_tex(x: LatexMatch, tex: Seq<char>) -> Seq<Report> {
    match x.content {
        Some(c) => if tex.len() == 0 {
            seq![Report { kind: ReportKind::Error, code: ReportCode::EmptyTex, span: c }]
        } else {
            Seq::<Report>::empty()
        },
        None => Seq::<Report>::empty(),
    }
}

/// The kind of script that inline Lua of the evaluation kind `e` gives.
pub open spec fn spec_eval_script_kind(e: LuaEvalKind) -> ScriptKind {
    match e {
        LuaEvalKind::Discard => ScriptKind::Eval,
        LuaEvalKind::String => ScriptKind::EvalText,
        LuaEvalKind::StringParse => ScriptKind::EvalParse,
    }
}

/// Whether `md` is the medium of the parts `v` (reference, uri, type, width,
/// caption, description's range) found over `whole`, its description (if
/// it has one) holding `desc`.
pub open spec fn spec_medium_is(
    md: Medium,
    v: (Seq<char>, Seq<char>, MediaType, Option<Seq<char>>, Option<Seq<char>>, Option<Token>),
    whole: Token,
    desc: Option<Seq<Element>>,
) -> bool {
    &&& md.reference@ == v.0
    &&& md.uri@ == v.1
    &&& md.media_type == v.2
    &&& opt_view(md.width) == v.3
    &&& opt_view(md.caption) == v.4
    &&& md.location == whole
    &&& (md.description is Some <==> v.5 is Some)
    &&& (md.description matches Some(x) ==> desc == Some(x@))
}

/// What a medium match over `whole` with the parts `v` does to the state
/// `old`: the medium joins the group of media that ends the document, or
/// starts a group of its own. Without a description, nothing else changes
/// but the reports of the styles that a new group closes.
pub open spec fn spec_medium_added(
    old: ParseState,
    new: ParseState,
    v: (Seq<char>, Seq<char>, MediaType, Option<Seq<char>>, Option<Seq<char>>, Option<Token>),
    whole: Token,
    desc: Option<Seq<Element>>,
) -> bool {
    let oc = old.doc.content@;
    let nc = new.doc.content@;
    if oc.len() > 0 && oc.last() is Media {
        &&& nc.len() == oc.len()
        &&& nc.drop_last() == oc.drop_last()
        &&& (oc.last() matches Element::Media(g1) && nc.last() matches Element::Media(g2)
            && g2.media@.len() == g1.media@.len() + 1 && g2.media@.drop_last() == g1.media@
            && spec_medium_is(g2.media@.last(), v, whole, desc))
        &&& v.5 is None ==> new.reports@ == old.reports@
    } else {
        &&& spec_flatten(nc) == spec_flatten(oc).push(spec_last_elem(new))
        &&& (spec_last_elem(new) matches Element::Media(h) && h.location == whole && h.media@.len() == 1
            && spec_medium_is(h.media@[0], v, whole, desc))
        &&& v.5 is None ==> new.reports@ == old.reports@ + spec_closing_reports(oc, old.styles, spec_last_elem(new))
    }
}

/// A reference to another document that the reference match `m` adds to
/// `new` carries the formats of `style`.
pub open spec fn spec_reference_styled(s: Seq<char>, m: ReferenceMatch, new: ParseState, style: ExternalReferenceStyle) -> bool {
    spec_reference_result(s, m) is Ok && spec_last_elem(new) is ExternalReference ==> {
        let r = spec_last_elem(new)->ExternalReference_0;
        r.style.format_unspecific@ == style.format_unspecific@ && r.style.format_specific@ == style.format_specific@
    }
}

/// What applying the medium match `m` does to the state `old`: the report
/// that refuses it; or the medium added (see `spec_medium_added`). A
/// description is parsed as a single paragraph: the medium holds its
/// content, or, when it is not one paragraph, the medium is refused by a
/// last report over the description.
pub open spec fn spec_media_effect(s: Seq<char>, m: MediaMatch, old: ParseState, new: ParseState) -> bool {
    match spec_media_result(s, m) {
        Err(c) => spec_refused(old, new, c),
        Ok(v) => match v.5 {
            None => spec_medium_added(old, new, v, m.whole, None),
            Some(d) => if 0 < d.start <= d.end <= s.len() {
                exists|sub: ParseState| #[trigger] spec_parses_base(s.subrange(d.start as int, d.end as int), para_mode(), sub)
                    && match spec_single_paragraph(sub.doc.content@) {
                        Ok(c) => spec_medium_added(old, new, v, m.whole, Some(c)),
                        Err(_) => spec_flatten(new.doc.content@) == spec_flatten(old.doc.content@)
                            && new.reports@.len() > 0 && new.reports@.last() == (Report {
                                kind: ReportKind::Error,
                                code: ReportCode::InvalidMediaDescription,
                                span: d,
                            }),
                    }
            } else {
                false
            },
        },
    }
}

/// Whether a rule enabled in `mode` matches at `q`.
pub open spec fn spec_any_rule_at(s: Seq<char>, q: int, mode: ParseMode) -> bool {
    exists|x: RuleId| spec_enabled(x, mode) && #[trigger] spec_rule_at(s, x, q)
}

/// Whether no rule enabled in `mode` matches from `from` on.
pub open spec fn spec_no_match_from(s: Seq<char>, from: int, mode: ParseMode) -> bool {
    forall|x: RuleId, q: int| spec_enabled(x, mode) && from <= q <= s.len() ==> !#[trigger] spec_rule_at(s, x, q)
}

/// The first place at or after `from` where a rule enabled in `mode`
/// matches; the end of `s` when there is none.
pub open spec fn spec_first_match(s: Seq<char>, from: int, mode: ParseMode) -> int
    decreases s.len() - from,
{
    if from < 0 || from >= s.len() {
        s.len() as int
    } else if spec_any_rule_at(s, from, mode) {
        from
    } else {
        spec_first_match(s, from + 1, mode)
    }
}

/// Whether `cur` holds, at index `at`, the text element that parsing from
/// `pos` in the document `doc` starts with: the normalised text of
/// `s[pos..f]`, `f` the first match at or after `pos`, when it is not
/// empty.
pub open spec fn spec_lead_text(s: Seq<char>, mode: ParseMode, doc: Seq<Element>, pos: int, at: int, cur: Seq<Element>) -> bool {
    let f = spec_first_match(s, pos, mode);
    let t = spec_added_text(doc, s, pos, f);
    t.len() > 0 ==> {
        &&& 0 <= at < cur.len()
        &&& cur[at] matches Element::Text(x)
        &&& x.location == (Token { start: pos as usize, end: f as usize })
        &&& x.content@ == t
    }
}

/// Whether the first match from `pos` on is a script that the script rule
/// accepts: no paragraph break starts where the script does.
pub open spec fn spec_script_first(s: Seq<char>, pos: int, mode: ParseMode) -> bool {
    let f = spec_first_match(s, pos, mode);
    &&& f < s.len()
    &&& spec_break_at(s, f) is None
    &&& spec_script_at(s, f) matches Some(x) && spec_script_result(s, x) is Ok
}

/// Whether `l` is the state `old` once the text before the first match at
/// or after `pos` is added: the same reports and styles, and the document
/// gains that text (see `spec_lead_text`) when it is not empty.
pub open spec fn spec_lead_state(s: Seq<char>, mode: ParseMode, old: ParseState, pos: int, l: ParseState) -> bool {
    let before = spec_flatten(old.doc.content@);
    let after = spec_flatten(l.doc.content@);
    let t = spec_added_text(old.doc.content@, s, pos, spec_first_match(s, pos, mode));
    &&& l.wf()
    &&& l.reports@ == old.reports@
    &&& l.styles == old.styles
    &&& l.layouts == old.layouts
    &&& after.len() == before.len() + if t.len() > 0 { 1int } else { 0int }
    &&& elems_stay(before, after)
    &&& spec_lead_text(s, mode, old.doc.content@, pos, before.len() as int, after)
}

/// Whether parsing from `pos` on, from the state `old` to `new`, first
/// adds the text before the first match, then applies that match (the
/// first rule's, see `spec_chosen_match`) as `spec_apply_effect` says;
/// what follows keeps what it gave (elements in place, reports first).
/// This holds whenever that first match is not a script.
pub open spec fn spec_first_step(s: Seq<char>, mode: ParseMode, old: ParseState, pos: int, new: ParseState) -> bool {
    let f = spec_first_match(s, pos, mode);
    f < s.len() && !(spec_chosen_match(s, f, mode) is Script) ==> exists|l: ParseState, a: ParseState|
        #![trigger spec_lead_state(s, mode, old, pos, l), spec_apply_effect(s, spec_chosen_match(s, f, mode), l, a)]
        spec_lead_state(s, mode, old, pos, l) && spec_apply_effect(s, spec_chosen_match(s, f, mode), l, a)
            && elems_stay(spec_flatten(a.doc.content@), spec_flatten(new.doc.content@))
            && reports_grow(a.reports@, new.reports@)
}

/// One step of parsing from `p` in the state `a`: the text before the first
/// match is added, that match (the first rule's, see `spec_chosen_match`)
/// is applied as `spec_apply_effect` says, giving `b`, and parsing goes on
/// at `q`, past the match's start (see `spec_next`).
#[verifier::opaque]
pub open spec fn spec_step(s: Seq<char>, mode: ParseMode, a: ParseState, p: int, b: ParseState, q: int) -> bool {
    let f = spec_first_match(s, p, mode);
    &&& f < q <= s.len()
    &&& spec_next(s, spec_chosen_match(s, f, mode)) matches Some(n) ==> q == n
    &&& exists|l: ParseState| #[trigger] spec_lead_state(s, mode, a, p, l)
        && spec_apply_effect(s, spec_chosen_match(s, f, mode), l, b)
        && (spec_chosen_match(s, f, mode) matches RuleMatch::List(x) ==> spec_list_run(s, x, l, b, q))
}

/// Where parsing goes on after the match `m`: past it, except after a
/// paragraph break, whose last newline starts what follows, and after a
/// Lua block, which ends at its delimiter; where a list ends is given by
/// `spec_list_run` (`None` here).
pub open spec fn spec_next(s: Seq<char>, m: RuleMatch) -> Option<int> {
    match m {
        RuleMatch::Paragraph(t) => Some(t.end - 1),
        RuleMatch::LuaBlock(x) => Some(spec_lua_block_result(s, x).1),
        RuleMatch::List(_) => None,
        _ => Some(spec_match_range(m).end as int),
    }
}

/// The step from the `i`-th state and position of a trace to the next.
pub open spec fn spec_step_at(s: Seq<char>, mode: ParseMode, sts: Seq<ParseState>, ps: Seq<int>, i: int) -> bool {
    spec_step(s, mode, sts[i], ps[i], sts[i + 1], ps[i + 1])
}

/// Parsing goes through the states `sts`, from the positions `ps`, one
/// step (see `spec_step`) at a time.
pub open spec fn spec_trace(s: Seq<char>, mode: ParseMode, sts: Seq<ParseState>, ps: Seq<int>) -> bool {
    &&& sts.len() == ps.len()
    &&& sts.len() > 0
    &&& forall|i: int| 0 <= i < sts.len() - 1 ==> #[trigger] spec_step_at(s, mode, sts, ps, i)
}

/// The last step of parsing, from `p` in the state `a`, where no rule
/// matches any more: the text that is left is added, then what is still
/// open (styles, layouts) is reported.
pub open spec fn spec_last_step(s: Seq<char>, mode: ParseMode, a: ParseState, p: int, b: ParseState) -> bool {
    &&& spec_no_match_from(s, p, mode)
    &&& exists|l: ParseState| #[trigger] spec_lead_state(s, mode, a, p, l)
        && b.doc.content@ == l.doc.content@
        && b.reports@ == l.reports@ + spec_style_reports(l.styles)
            + l.layouts.stack@.map_values(|x: (Vec<Token>, LayoutType)| spec_layout_report(x.0@))
}

/// `spec_apply_effect`, where what a link, an internal link, a medium or a
/// list adds is described without the inner parse of its display,
/// description or entries.
pub open spec fn spec_apply_effect_base(s: Seq<char>, m: RuleMatch, old: ParseState, new: ParseState) -> bool {
    match m {
        RuleMatch::Raw(x) => match spec_raw_result(s, x) {
                    Ok(v) => spec_last_elem(new) matches Element::Raw(r) && (r.kind, r.content@) == v
                        && r.location == x.whole
                        && spec_flatten(new.doc.content@) == spec_flatten(old.doc.content@).push(Element::Raw(r))
                        && new.reports@ == old.reports@ + spec_raw_warning(s, x)
                            + spec_closing_reports(old.doc.content@, old.styles, Element::Raw(r)),
                    Err(c) => spec_flatten(new.doc.content@) == spec_flatten(old.doc.content@)
                        && new.reports@.len() == old.reports@.len() + spec_raw_warning(s, x).len() + 1
                        && new.reports@.drop_last() == old.reports@ + spec_raw_warning(s, x)
                        && new.reports@.last().code == c
                        && new.reports@.last().kind == spec_report_kind(c),
                },
        RuleMatch::RawKind(x) => match spec_raw_kind_result(s, x) {
                    Ok(v) => spec_gains(old, new, spec_last_elem(new))
                        && (spec_last_elem(new) matches Element::Raw(r) && (r.kind, r.content@) == v && r.location == x.whole),
                    Err(c) => spec_refused(old, new, c),
                },
        RuleMatch::Style(t, k) => spec_gains(old, new, spec_last_elem(new))
                    && (spec_last_elem(new) matches Element::Style(e) && e.kind == k && e.location == t
                    && e.close == old.styles.toggled@[k as int] is Some
                    && new.styles.toggled@ == old.styles.toggled@.update(
                        k as int,
                        if e.close { None } else { Some(t) },
                    )),
        RuleMatch::Reference(x) => match spec_reference_result(s, x) {
                    Ok(v) => spec_gains(old, new, spec_last_elem(new))
                        && spec_element_target(spec_last_elem(new)) == Some(v)
                        && spec_location(spec_last_elem(new)) == x.whole,
                    Err(c) => spec_refused(old, new, c),
                },
        RuleMatch::Media(x) => spec_media_effect_base(s, x, old, new),
        RuleMatch::Section(x) => match spec_section_result(s, x) {
                    Ok(v) => (spec_last_elem(new) matches Element::Section(sec)
                        && (sec.depth, sec.kind, match sec.reference {
                            Some(r) => Some(r@),
                            None => None,
                        }, sec.title@) == v && sec.location == x.whole
                        && spec_flatten(new.doc.content@) == spec_flatten(old.doc.content@).push(Element::Section(sec))
                        && new.reports@ == old.reports@ + (if spec_redefines(old.doc.content@, sec.reference) {
                            seq![Report {
                                kind: ReportKind::Warning,
                                code: ReportCode::DuplicateReferenceName,
                                span: match x.refname {
                                    Some(t) => t,
                                    None => x.whole,
                                },
                            }]
                        } else {
                            Seq::<Report>::empty()
                        }) + spec_closing_reports(old.doc.content@, old.styles, Element::Section(sec))),
                    Err(c) => spec_flatten(new.doc.content@) == spec_flatten(old.doc.content@)
                        && new.reports@.len() == old.reports@.len() + spec_section_dup_warning(s, x, old.doc.content@, c).len() + 1
                        && new.reports@.drop_last() == old.reports@ + spec_section_dup_warning(s, x, old.doc.content@, c)
                        && new.reports@.last().code == c && new.reports@.last().kind == spec_report_kind(c),
                },
        RuleMatch::Paragraph(t) => {
            &&& new.doc.content@.len() == old.doc.content@.len() + 1
            &&& new.doc.content@.drop_last() == old.doc.content@
            &&& (new.doc.content@.last() matches Element::Paragraph(p)
                && p.location == Token { start: t.start, end: (t.end - 1) as usize } && p.content@.len() == 0)
            &&& new.reports@ == old.reports@ + spec_closing_reports(old.doc.content@, old.styles, new.doc.content@.last())
        },
        RuleMatch::Script(x) => match spec_script_result(s, x) {
            Ok(v) => spec_gains(old, new, spec_last_elem(new))
                && (spec_last_elem(new) matches Element::Script(sc) && (sc.kernel@, sc.kind, sc.code@) == v
                && sc.location == x.whole),
            Err(c) => spec_refused(old, new, c),
        },
        RuleMatch::Latex(x) => match spec_latex_result(s, x) {
            Ok(v) => spec_last_elem(new) matches Element::Latex(l)
                && (l.kind, l.env@, l.tex@, opt_string_view(l.caption)) == v
                && l.location == x.whole && l.mathmode == (x.index == 1)
                && spec_flatten(new.doc.content@) == spec_flatten(old.doc.content@).push(Element::Latex(l))
                && new.reports@ == old.reports@ + spec_empty_tex(x, l.tex@)
                    + spec_closing_reports(old.doc.content@, old.styles, Element::Latex(l)),
            Err(c) => spec_refused(old, new, c),
        },
        RuleMatch::Layout(x) => match spec_layout_step(s, x, stack_view(old.layouts.stack@)) {
            Ok(v) => spec_gains(old, new, spec_last_elem(new))
                && (spec_last_elem(new) matches Element::Layout(l)
                && (l.token, l.layout, l.id, l.style@, stack_view(new.layouts.stack@)) == v && l.location == x.whole),
            Err(c) => spec_refused(old, new, c)
                && new.reports@.last() == (Report { kind: ReportKind::Error, code: c, span: spec_layout_report_span(x, c) })
                && stack_view(new.layouts.stack@) == stack_view(old.layouts.stack@),
        },
        RuleMatch::LuaBlock(x) => match spec_lua_block_result(s, x).0 {
            Ok(v) => spec_gains(old, new, spec_last_elem(new))
                && (spec_last_elem(new) matches Element::Script(sc) && sc.kernel@ == v.0 && sc.code@ == v.1
                && sc.kind == ScriptKind::Exec
                && sc.location == (Token { start: x.whole.start, end: spec_lua_block_result(s, x).1 as usize })),
            Err(c) => spec_refused(old, new, c),
        },
        RuleMatch::InlineLua(x) => match spec_inline_lua_result(s, x) {
            Ok(v) => spec_gains(old, new, spec_last_elem(new)) && if x.index == 0 {
                spec_last_elem(new) matches Element::Script(sc) && sc.kernel@ == v.0
                    && sc.kind == spec_eval_script_kind(v.1) && sc.code@ == v.2 && sc.location == x.whole
            } else {
                spec_last_elem(new) matches Element::LuaPostProcess(pp) && pp.kernel@ == v.0
                    && pp.eval_kind == v.1 && pp.code@ == v.2 && pp.location == x.whole
            },
            Err(c) => spec_refused(old, new, c),
        },
        RuleMatch::List(x) => spec_list_effect_base(s, x, old, new),
        RuleMatch::Link(x) => spec_link_effect_base(s, x, old, new),
        RuleMatch::InternalLink(x) => spec_internal_link_effect_base(s, x, old, new),
    }
}

/// A link is refused, or added to its url, or its display is refused.
pub open spec fn spec_link_effect_base(s: Seq<char>, m: LinkMatch, old: ParseState, new: ParseState) -> bool {
    match spec_link_result(s, m) {
        Err(c) => spec_refused(old, new, c),
        Ok(v) => {
            ||| (spec_last_elem(new) matches Element::Link(l) && l.location == m.whole && l.url@ == v.1
                && spec_flatten(new.doc.content@) == spec_flatten(old.doc.content@).push(Element::Link(l)))
            ||| (spec_flatten(new.doc.content@) == spec_flatten(old.doc.content@) && new.reports@.len() > 0
                && new.reports@.last() == (Report {
                    kind: ReportKind::Error,
                    code: ReportCode::InvalidLinkDisplay,
                    span: m.display,
                }))
        },
    }
}

/// An internal link is refused, or added, or its display is refused.
pub open spec fn spec_internal_link_effect_base(s: Seq<char>, m: InternalLinkMatch, old: ParseState, new: ParseState) -> bool {
    match spec_internal_link_result(s, m) {
        Err(c) => spec_refused(old, new, c),
        Ok((name, None)) => spec_gains(old, new, spec_last_elem(new))
            && (spec_last_elem(new) matches Element::InternalLink(l) && l.location == m.whole
            && refname_view(l.refname) == name && l.display@.len() == 1
            && (l.display@[0] matches Element::Text(t) && t.location == m.whole
            && t.content@ == spec_refname_text(name))),
        Ok((name, Some(d))) => {
            ||| (spec_last_elem(new) matches Element::InternalLink(l) && l.location == m.whole
                && refname_view(l.refname) == name
                && spec_flatten(new.doc.content@) == spec_flatten(old.doc.content@).push(Element::InternalLink(l)))
            ||| (spec_flatten(new.doc.content@) == spec_flatten(old.doc.content@) && new.reports@.len() > 0
                && new.reports@.last() == (Report {
                    kind: ReportKind::Error,
                    code: ReportCode::InvalidInternalLinkDisplay,
                    span: d,
                }))
        },
    }
}

/// A medium is refused, or added, or its description is refused.
pub open spec fn spec_media_effect_base(s: Seq<char>, m: MediaMatch, old: ParseState, new: ParseState) -> bool {
    match spec_media_result(s, m) {
        Err(c) => spec_refused(old, new, c),
        Ok(v) => (exists|dd: Option<Seq<Element>>| spec_medium_added(old, new, v, m.whole, dd)) || (v.5 is Some
            && spec_flatten(new.doc.content@) == spec_flatten(old.doc.content@)
            && new.reports@.len() > 0 && new.reports@.last().code == ReportCode::InvalidMediaDescription),
    }
}

/// A list's first entry is refused, or only list markers and entries are
/// added.
pub open spec fn spec_list_effect_base(s: Seq<char>, m: EntryMatch, old: ParseState, new: ParseState) -> bool {
    match spec_entry_props(s, m, spec_prev_bullet(old)) {
        Err(c) => spec_refused(old, new, c),
        Ok(_) => forall|k: int| spec_flatten(old.doc.content@).len() <= k < spec_flatten(new.doc.content@).len()
            ==> (#[trigger] spec_flatten(new.doc.content@)[k] is ListMarker
            || spec_flatten(new.doc.content@)[k] is ListEntry),
    }
}

/// `spec_step` with `spec_apply_effect_base`.
#[verifier::opaque]
pub open spec fn spec_step_base(s: Seq<char>, mode: ParseMode, a: ParseState, p: int, b: ParseState, q: int) -> bool {
    let f = spec_first_match(s, p, mode);
    &&& f < q <= s.len()
    &&& spec_next(s, spec_chosen_match(s, f, mode)) matches Some(n) ==> q == n
    &&& exists|l: ParseState| #[trigger] spec_lead_state(s, mode, a, p, l)
        && spec_apply_effect_base(s, spec_chosen_match(s, f, mode), l, b)
}

/// `spec_step_at` with `spec_step_base`.
pub open spec fn spec_step_at_base(s: Seq<char>, mode: ParseMode, sts: Seq<ParseState>, ps: Seq<int>, i: int) -> bool {
    spec_step_base(s, mode, sts[i], ps[i], sts[i + 1], ps[i + 1])
}

/// `spec_trace` with `spec_step_base`.
pub open spec fn spec_trace_base(s: Seq<char>, mode: ParseMode, sts: Seq<ParseState>, ps: Seq<int>) -> bool {
    &&& sts.len() == ps.len()
    &&& sts.len() > 0
    &&& forall|i: int| 0 <= i < sts.len() - 1 ==> #[trigger] spec_step_at_base(s, mode, sts, ps, i)
}

/// Whether parsing `s` in `mode` may give `r`, as `spec_trace_base`
/// describes the steps: coarser than `spec_parses_to`, it leaves open what
/// the parses within a match give. Every parse that `spec_parses_to`
/// admits, it admits (see `lemma_parses_weaken`); displays, descriptions
/// and list entries are described through it.
pub open spec fn spec_parses_base(s: Seq<char>, mode: ParseMode, r: ParseState) -> bool {
    exists|sts: Seq<ParseState>, ps: Seq<int>| #[trigger] spec_trace_base(s, mode, sts, ps) && spec_fresh(sts[0])
        && ps[0] == 0 && spec_last_step(s, mode, sts.last(), ps.last(), r)
}

/// Whether parsing `s` in `mode` may give `r`: from the empty state, the
/// steps of a trace (see `spec_trace`), then the last step.
pub open spec fn spec_parses_to(s: Seq<char>, mode: ParseMode, r: ParseState) -> bool {
    exists|sts: Seq<ParseState>, ps: Seq<int>| #[trigger] spec_trace(s, mode, sts, ps) && spec_fresh(sts[0])
        && ps[0] == 0 && spec_last_step(s, mode, sts.last(), ps.last(), r)
}

proof fn lemma_effect_weaken(s: Seq<char>, m: RuleMatch, a: ParseState, b: ParseState)
    requires
        spec_apply_effect(s, m, a, b),
    ensures
        spec_apply_effect_base(s, m, a, b),
{
    match m {
        RuleMatch::Link(x) => {
            if let Ok(v) = spec_link_result(s, x) {
                let d = s.subrange(x.display.start as int, x.display.end as int);
                let sub = choose|sub: ParseState| #[trigger] spec_parses_base(spec_escape_text('\\', "]("@, d), para_mode(), sub)
                    && match spec_single_paragraph(sub.doc.content@) {
                        Ok(c) => spec_last_elem(b) matches Element::Link(l) && l.location == x.whole && l.url@ == v.1
                            && l.display@ == c
                            && spec_flatten(b.doc.content@) == spec_flatten(a.doc.content@).push(Element::Link(l)),
                        Err(_) => spec_flatten(b.doc.content@) == spec_flatten(a.doc.content@) && b.reports@.len() > 0
                            && b.reports@.last() == (Report {
                                kind: ReportKind::Error,
                                code: ReportCode::InvalidLinkDisplay,
                                span: x.display,
                            }),
                    };
            }
        },
        RuleMatch::InternalLink(x) => {
            if let Ok((name, Some(d))) = spec_internal_link_result(s, x) {
                let t = s.subrange(d.start as int, d.end as int);
                let sub = choose|sub: ParseState| #[trigger] spec_parses_base(spec_escape_text('\\', "]"@, t), para_mode(), sub)
                    && match spec_single_paragraph(sub.doc.content@) {
                        Ok(c) => spec_last_elem(b) matches Element::InternalLink(l) && l.location == x.whole
                            && refname_view(l.refname) == name && l.display@ == c
                            && spec_flatten(b.doc.content@) == spec_flatten(a.doc.content@).push(Element::InternalLink(l)),
                        Err(_) => spec_flatten(b.doc.content@) == spec_flatten(a.doc.content@) && b.reports@.len() > 0
                            && b.reports@.last() == (Report {
                                kind: ReportKind::Error,
                                code: ReportCode::InvalidInternalLinkDisplay,
                                span: d,
                            }),
                    };
            }
        },
        RuleMatch::Media(x) => {
            if let Ok(v) = spec_media_result(s, x) {
                match v.5 {
                    None => {},
                    Some(d) => {
                        let sub = choose|sub: ParseState| #[trigger] spec_parses_base(s.subrange(d.start as int, d.end as int), para_mode(), sub)
                            && match spec_single_paragraph(sub.doc.content@) {
                                Ok(c) => spec_medium_added(a, b, v, x.whole, Some(c)),
                                Err(_) => spec_flatten(b.doc.content@) == spec_flatten(a.doc.content@)
                                    && b.reports@.len() > 0 && b.reports@.last() == (Report {
                                        kind: ReportKind::Error,
                                        code: ReportCode::InvalidMediaDescription,
                                        span: d,
                                    }),
                            };
                        if let Ok(c) = spec_single_paragraph(sub.doc.content@) {
                            assert(spec_medium_added(a, b, v, x.whole, Some(c)));
                        }
                    },
                }
            }
        },
        _ => {},
    }
}

proof fn lemma_parses_weaken(s: Seq<char>, mode: ParseMode, r: ParseState)
    requires
        spec_parses_to(s, mode, r),
    ensures
        spec_parses_base(s, mode, r),
{
    let (sts, ps) = choose|sts: Seq<ParseState>, ps: Seq<int>| #[trigger] spec_trace(s, mode, sts, ps) && spec_fresh(sts[0])
        && ps[0] == 0 && spec_last_step(s, mode, sts.last(), ps.last(), r);
    assert forall|i: int| 0 <= i < sts.len() - 1 implies #[trigger] spec_step_at_base(s, mode, sts, ps, i) by {
        assert(spec_step_at(s, mode, sts, ps, i));
        reveal(spec_step);
        reveal(spec_step_base);
        let f = spec_first_match(s, ps[i], mode);
        let l = choose|l: ParseState| #[trigger] spec_lead_state(s, mode, sts[i], ps[i], l)
            && spec_apply_effect(s, spec_chosen_match(s, f, mode), l, sts[i + 1]);
        lemma_effect_weaken(s, spec_chosen_match(s, f, mode), l, sts[i + 1]);
    }
    assert(spec_trace_base(s, mode, sts, ps));
}

/// The mode in which displays, descriptions and list entries are parsed.
pub open spec fn para_mode() -> ParseMode {
    ParseMode { paragraph_only: true }
}

proof fn lemma_trace_push(s: Seq<char>, mode: ParseMode, sts: Seq<ParseState>, ps: Seq<int>, b: ParseState, q: int)
    requires
        spec_trace(s, mode, sts, ps),
        spec_step(s, mode, sts.last(), ps.last(), b, q),
    ensures
        spec_trace(s, mode, sts.push(b), ps.push(q)),
{
    let t = sts.push(b);
    let u = ps.push(q);
    assert forall|i: int| 0 <= i < t.len() - 1 implies #[trigger] spec_step_at(s, mode, t, u, i) by {
        if i < sts.len() - 1 {
            assert(spec_step_at(s, mode, sts, ps, i));
            assert(t[i] == sts[i] && t[i + 1] == sts[i + 1] && u[i] == ps[i] && u[i + 1] == ps[i + 1]);
        } else {
            assert(t[i] == sts.last() && u[i] == ps.last() && t[i + 1] == b && u[i + 1] == q);
        }
    }
}

proof fn lemma_trace_concat(s: Seq<char>, mode: ParseMode, a: Seq<ParseState>, pa: Seq<int>, b: Seq<ParseState>, pb: Seq<int>)
    requires
        spec_trace(s, mode, a, pa),
        spec_trace(s, mode, b, pb),
        a.last() == b[0],
        pa.last() == pb[0],
    ensures
        spec_trace(s, mode, a + b.drop_first(), pa + pb.drop_first()),
        (a + b.drop_first())[0] == a[0],
        (pa + pb.drop_first())[0] == pa[0],
        (a + b.drop_first()).last() == b.last(),
        (pa + pb.drop_first()).last() == pb.last(),
{
    let t = a + b.drop_first();
    let u = pa + pb.drop_first();
    assert forall|i: int| 0 <= i < t.len() - 1 implies #[trigger] spec_step_at(s, mode, t, u, i) by {
        if i < a.len() - 1 {
            assert(spec_step_at(s, mode, a, pa, i));
            assert(t[i] == a[i] && t[i + 1] == a[i + 1] && u[i] == pa[i] && u[i + 1] == pa[i + 1]);
        } else {
            let j = i - (a.len() - 1);
            assert(spec_step_at(s, mode, b, pb, j));
            assert(t[i] == b[j] && t[i + 1] == b[j + 1] && u[i] == pb[j] && u[i + 1] == pb[j + 1]);
        }
    }
    if b.len() > 1 {
        assert(t.last() == b.last());
        assert(u.last() == pb.last());
    } else {
        assert(t =~= a);
        assert(u =~= pa);
    }
}

/// Whether `st` is the state before any text is read (see
/// `ParseState::new`).
pub open spec fn spec_fresh(st: ParseState) -> bool {
    &&& st.wf()
    &&& st.doc.content@.len() == 0
    &&& st.reports@.len() == 0
    &&& st.sems.tokens@.len() == 0
    &&& (forall|i: int| 0 <= i < 4 ==> st.styles.toggled@[i] is None)
    &&& st.layouts.stack@.len() == 0
}

proof fn lemma_first_step_stays(s: Seq<char>, mode: ParseMode, old: ParseState, pos: int, a: ParseState, b: ParseState)
    requires
        spec_first_step(s, mode, old, pos, a),
        elems_stay(spec_flatten(a.doc.content@), spec_flatten(b.doc.content@)),
        reports_grow(a.reports@, b.reports@),
    ensures
        spec_first_step(s, mode, old, pos, b),
{
    let f = spec_first_match(s, pos, mode);
    if f < s.len() && !(spec_chosen_match(s, f, mode) is Script) {
        let (l, x) = choose|l: ParseState, x: ParseState|
            spec_lead_state(s, mode, old, pos, l) && spec_apply_effect(s, spec_chosen_match(s, f, mode), l, x)
                && elems_stay(spec_flatten(x.doc.content@), spec_flatten(a.doc.content@))
                && reports_grow(x.reports@, a.reports@);
        lemma_elems_stay_trans(spec_flatten(x.doc.content@), spec_flatten(a.doc.content@), spec_flatten(b.doc.content@));
        assert(spec_lead_state(s, mode, old, pos, l) && spec_apply_effect(s, spec_chosen_match(s, f, mode), l, x));
    }
}

/// The match that the parser takes at `f`: that of the first rule, in
/// their order, that is enabled in `mode` and matches there.
pub open spec fn spec_chosen_match(s: Seq<char>, f: int, mode: ParseMode) -> RuleMatch {
    if spec_break_at(s, f) is Some {
        RuleMatch::Paragraph(Token { start: f as usize, end: spec_break_at(s, f)->0 as usize })
    } else if spec_script_at(s, f) is Some {
        RuleMatch::Script(spec_script_at(s, f)->0)
    } else if spec_raw_at(s, f) is Some {
        RuleMatch::Raw(spec_raw_at(s, f)->0)
    } else if spec_raw_kind_at(s, f) is Some {
        RuleMatch::RawKind(spec_raw_kind_at(s, f)->0)
    } else if spec_enabled(RuleId::List, mode) && spec_entry_at(s, f) is Some {
        RuleMatch::List(spec_entry_at(s, f)->0)
    } else if spec_latex_at(s, f) is Some {
        RuleMatch::Latex(spec_latex_at(s, f)->0)
    } else if spec_media_at(s, f) is Some {
        RuleMatch::Media(spec_media_at(s, f)->0)
    } else if spec_enabled(RuleId::Layout, mode) && spec_any_layout_at(s, f) is Some {
        RuleMatch::Layout(spec_any_layout_at(s, f)->0)
    } else if spec_style_at(s, f) is Some {
        let (k, len) = spec_style_at(s, f)->0;
        RuleMatch::Style(Token { start: f as usize, end: (f + len) as usize }, k)
    } else if spec_section_at(s, f) is Some {
        RuleMatch::Section(spec_section_at(s, f)->0)
    } else if spec_link_at(s, f) is Some {
        RuleMatch::Link(spec_link_at(s, f)->0)
    } else if spec_reference_at(s, f) is Some {
        RuleMatch::Reference(spec_reference_at(s, f)->0)
    } else if spec_internal_link_at(s, f) is Some {
        RuleMatch::InternalLink(spec_internal_link_at(s, f)->0)
    } else if spec_enabled(RuleId::LuaBlock, mode) && spec_lua_block_at(s, f) is Some {
        RuleMatch::LuaBlock(spec_lua_block_at(s, f)->0)
    } else {
        RuleMatch::InlineLua(spec_any_inline_lua_at(s, f)->0)
    }
}

/// The match that the parser takes is the first rule's.
proof fn lemma_chosen_match(s: Seq<char>, m: RuleMatch, mode: ParseMode)
    requires
        spec_match_valid(s, m),
        spec_enabled(spec_match_rule(m), mode),
        forall|x: RuleId| spec_enabled(x, mode) && spec_rank(x) < spec_rank(spec_match_rule(m))
            ==> !spec_rule_at(s, x, spec_match_range(m).start as int),
    ensures
        m == spec_chosen_match(s, spec_match_range(m).start as int, mode),
{
    let f = spec_match_range(m).start as int;
    assert(spec_enabled(RuleId::Paragraph, mode) && spec_rank(RuleId::Paragraph) < spec_rank(spec_match_rule(m)) ==> !spec_rule_at(s, RuleId::Paragraph, f));
    assert(spec_enabled(RuleId::Script, mode) && spec_rank(RuleId::Script) < spec_rank(spec_match_rule(m)) ==> !spec_rule_at(s, RuleId::Script, f));
    assert(spec_enabled(RuleId::Raw, mode) && spec_rank(RuleId::Raw) < spec_rank(spec_match_rule(m)) ==> !spec_rule_at(s, RuleId::Raw, f));
    assert(spec_enabled(RuleId::List, mode) && spec_rank(RuleId::List) < spec_rank(spec_match_rule(m)) ==> !spec_rule_at(s, RuleId::List, f));
    assert(spec_enabled(RuleId::Latex, mode) && spec_rank(RuleId::Latex) < spec_rank(spec_match_rule(m)) ==> !spec_rule_at(s, RuleId::Latex, f));
    assert(spec_enabled(RuleId::Media, mode) && spec_rank(RuleId::Media) < spec_rank(spec_match_rule(m)) ==> !spec_rule_at(s, RuleId::Media, f));
    assert(spec_enabled(RuleId::Layout, mode) && spec_rank(RuleId::Layout) < spec_rank(spec_match_rule(m)) ==> !spec_rule_at(s, RuleId::Layout, f));
    assert(spec_enabled(RuleId::Style, mode) && spec_rank(RuleId::Style) < spec_rank(spec_match_rule(m)) ==> !spec_rule_at(s, RuleId::Style, f));
    assert(spec_enabled(RuleId::Section, mode) && spec_rank(RuleId::Section) < spec_rank(spec_match_rule(m)) ==> !spec_rule_at(s, RuleId::Section, f));
    assert(spec_enabled(RuleId::Link, mode) && spec_rank(RuleId::Link) < spec_rank(spec_match_rule(m)) ==> !spec_rule_at(s, RuleId::Link, f));
    assert(spec_enabled(RuleId::Reference, mode) && spec_rank(RuleId::Reference) < spec_rank(spec_match_rule(m)) ==> !spec_rule_at(s, RuleId::Reference, f));
    assert(spec_enabled(RuleId::InternalLink, mode) && spec_rank(RuleId::InternalLink) < spec_rank(spec_match_rule(m)) ==> !spec_rule_at(s, RuleId::InternalLink, f));
    assert(spec_enabled(RuleId::LuaBlock, mode) && spec_rank(RuleId::LuaBlock) < spec_rank(spec_match_rule(m)) ==> !spec_rule_at(s, RuleId::LuaBlock, f));
    assert(spec_enabled(RuleId::InlineLua, mode) && spec_rank(RuleId::InlineLua) < spec_rank(spec_match_rule(m)) ==> !spec_rule_at(s, RuleId::InlineLua, f));
}

proof fn lemma_first_match(s: Seq<char>, from: int, q: int, mode: ParseMode)
    requires
        0 <= from <= q <= s.len(),
        forall|x: RuleId, r: int| spec_enabled(x, mode) && from <= r < q ==> !#[trigger] spec_rule_at(s, x, r),
        q < s.len() ==> spec_any_rule_at(s, q, mode),
    ensures
        spec_first_match(s, from, mode) == q,
    decreases q - from,
{
    if from < q {
        assert(!spec_any_rule_at(s, from, mode));
        lemma_first_match(s, from + 1, q, mode);
    }
}

proof fn lemma_match_rule_at(s: Seq<char>, m: RuleMatch)
    requires
        spec_match_valid(s, m),
    ensures
        spec_rule_at(s, spec_match_rule(m), spec_match_range(m).start as int),
{
}

proof fn lemma_lead_stays(s: Seq<char>, mode: ParseMode, doc: Seq<Element>, pos: int, at: int, a: Seq<Element>, b: Seq<Element>)
    requires
        spec_lead_text(s, mode, doc, pos, at, a),
        elems_stay(a, b),
    ensures
        spec_lead_text(s, mode, doc, pos, at, b),
{
    let f = spec_first_match(s, pos, mode);
    if spec_added_text(doc, s, pos, f).len() > 0 {
        assert(is_text(a[at]));
    }
}

proof fn lemma_none_filtered<T>(t: Seq<T>, pred: spec_fn(T) -> bool)
    requires
        forall|i: int| 0 <= i < t.len() ==> !pred(#[trigger] t[i]),
    ensures
        t.filter(pred).len() == 0,
    decreases t.len(),
{
    reveal(Seq::filter);
    if t.len() > 0 {
        lemma_none_filtered(t.drop_last(), pred);
    }
}

/// The text elements of `new` are those of `old`, at the same places.
pub open spec fn texts_kept(old: Seq<Element>, new: Seq<Element>) -> bool {
    forall|k: int| 0 <= k < new.len() && #[trigger] is_text(new[k]) ==> k < old.len() && new[k] == old[k]
}

/// `e` adds no text element to a document.
pub open spec fn adds_no_text(e: Element) -> bool {
    &&& !is_text(e)
    &&& (e matches Element::Paragraph(p) ==> forall|j: int| 0 <= j < p.content@.len() ==> !is_text(#[trigger] p.content@[j]))
}

/// The reports for the styles left open in `styles`: each unterminated, at
/// the marker that opened it.
pub open spec fn spec_style_reports(styles: StyleState) -> Seq<Report> {
    styles.toggled@.filter(|t: Option<Token>| t is Some).map_values(|t: Option<Token>| unterminated_report(t->0))
}

/// The report of a style left open at `t`.
pub open spec fn unterminated_report(t: Token) -> Report {
    Report { kind: ReportKind::Error, code: ReportCode::UnterminatedStyle, span: t }
}

/// The reports that adding `elem` to the document `content` gives: an
/// element that ends the last paragraph reports the styles left open.
pub open spec fn spec_closing_reports(content: Seq<Element>, styles: StyleState, elem: Element) -> Seq<Report> {
    if !spec_fits_paragraph(elem) && content.len() > 0 && content.last() is Paragraph {
        spec_style_reports(styles)
    } else {
        Seq::empty()
    }
}

/// Where text added to the document `content` stands: inside a paragraph
/// (the document ends with one) or not, and after inline content of that
/// paragraph or not.
pub open spec fn spec_text_context(content: Seq<Element>) -> (bool, bool) {
    if content.len() > 0 {
        match content.last() {
            Element::Paragraph(p) => (true, spec_ends_inline(p.content@)),
            _ => (false, false),
        }
    } else {
        (false, false)
    }
}

/// The text that `s[from..to]` gives where it is added to `content`.
pub open spec fn spec_added_text(content: Seq<Element>, s: Seq<char>, from: int, to: int) -> Seq<char> {
    let ctx = spec_text_context(content);
    spec_process_text(s.subrange(from, to), ctx.0, ctx.1)
}

/// Whether an element of `content` already defines the reference name
/// `reference`.
pub open spec fn spec_redefines(content: Seq<Element>, reference: Option<String>) -> bool {
    match reference {
        Some(r) => exists|i: int| spec_last_definition(content, r@, i),
        None => false,
    }
}

/// Two markers of the same style, the first opening it, with no marker of
/// that style between them (its state untouched): the first adds an opening
/// marker and opens the style at its place, the second adds a closing
/// marker and closes the style; the other styles stay as each step found
/// them.
#[verifier::spinoff_prover]
#[verifier::rlimit(60)]
pub proof fn law_style_open_then_close(
    s: Seq<char>,
    t1: Token,
    t2: Token,
    k: usize,
    a: ParseState,
    b: ParseState,
    c: ParseState,
    d: ParseState,
)
    requires
        k < 4,
        a.styles.toggled@.len() == 4,
        a.styles.toggled@[k as int] is None,
        spec_apply_effect(s, RuleMatch::Style(t1, k), a, b),
        c.styles.toggled@.len() == 4,
        c.styles.toggled@[k as int] == b.styles.toggled@[k as int],
        spec_apply_effect(s, RuleMatch::Style(t2, k), c, d),
    ensures
        spec_last_elem(b) matches Element::Style(e) && e.kind == k && !e.close && e.location == t1,
        b.styles.toggled@[k as int] == Some(t1),
        spec_last_elem(d) matches Element::Style(e) && e.kind == k && e.close && e.location == t2,
        d.styles.toggled@[k as int] is None,
        forall|j: int| 0 <= j < 4 && j != k ==> b.styles.toggled@[j] == a.styles.toggled@[j]
            && d.styles.toggled@[j] == c.styles.toggled@[j],
{
    assert(b.styles.toggled@ == a.styles.toggled@.update(k as int, Some(t1)));
    assert(c.styles.toggled@[k as int] is Some);
    assert(d.styles.toggled@ == c.styles.toggled@.update(k as int, None));
}

/// The warning that a refused heading `m` still gives when its reference
/// name is already defined in `content`: once its depth is accepted, the
/// name is checked before the rest of the heading.
pub open spec fn spec_section_dup_warning(s: Seq<char>, m: SectionMatch, content: Seq<Element>, code: ReportCode) -> Seq<Report> {
    match m.refname {
        Some(r) => if code != ReportCode::InvalidSectionDepth
            && exists|i: int| spec_last_definition(content, s.subrange(r.start as int, r.end as int), i) {
            seq![Report { kind: ReportKind::Warning, code: ReportCode::DuplicateReferenceName, span: r }]
        } else {
            Seq::<Report>::empty()
        },
        None => Seq::<Report>::empty(),
    }
}

/// What the parser holds while it reads a text.
pub struct ParseState {
    pub doc: Document,
    pub sems: Semantics,
    pub reports: Vec<Report>,
    pub styles: StyleState,
    pub layouts: LayoutState,
}

/// Every open layout has at least its opening marker.
pub open spec fn layouts_wf(st: Seq<(Seq<Token>, LayoutType)>) -> bool {
    forall|i: int| 0 <= i < st.len() ==> (#[trigger] st[i]).0.len() > 0
}

impl ParseState {
    pub open spec fn wf(&self) -> bool {
        &&& doc_wf(self.doc.content@)
        &&& self.sems.wf()
        &&& self.styles.wf()
        &&& layouts_wf(stack_view(self.layouts.stack@))
    }

    /// The state before any text is read: an empty document, no tokens, no
    /// reports, no open style or layout.
    pub fn new() -> (r: ParseState)
        ensures
            r.wf(),
            r.doc.content@.len() == 0,
            r.reports@.len() == 0,
            r.sems.tokens@.len() == 0,
            forall|i: int| 0 <= i < 4 ==> r.styles.toggled@[i] is None,
            r.styles.toggled@.len() == 4,
            r.layouts.stack@.len() == 0,
    {
        let r = ParseState {
            doc: Document::new(),
            sems: Semantics::new(),
            reports: Vec::new(),
            styles: StyleState::new(),
            layouts: LayoutState::new(),
        };
        proof {
            assert(stack_view(r.layouts.stack@) =~= Seq::<(Seq<Token>, LayoutType)>::empty());
        }
        r
    }

    /// Adds `elem` to the document. An element that does not fit a
    /// paragraph ends the current paragraph: the styles still open in it are
    /// reported as unterminated and closed.
    pub fn push(&mut self, elem: Element)
        requires
            old(self).wf(),
            spec_pushable(elem),
        ensures
            reports_grow(old(self).reports@, final(self).reports@),
            final(self).wf(),
            final(self).layouts == old(self).layouts,
            final(self).sems == old(self).sems,
            spec_flatten(final(self).doc.content@) == spec_flatten(old(self).doc.content@) + spec_flatten(seq![elem]),
            adds_no_text(elem) ==> texts_kept(spec_flatten(old(self).doc.content@), spec_flatten(final(self).doc.content@)),
            final(self).reports@ == old(self).reports@ + spec_closing_reports(old(self).doc.content@, old(self).styles, elem),
            elems_stay(spec_flatten(old(self).doc.content@), spec_flatten(final(self).doc.content@)),
            spec_fits_paragraph(elem) ==> final(self).styles == old(self).styles,
            !spec_fits_paragraph(elem) ==> final(self).doc.content@ == old(self).doc.content@.push(elem),
    {
        let n = self.doc.content.len();
        if !(elem.kind() == ElemKind::Inline || elem.kind() == ElemKind::Invisible) && n > 0 {
            let ends_paragraph = match &self.doc.content[n - 1] {
                Element::Paragraph(_) => true,
                _ => false,
            };
            if ends_paragraph {
                self.close_styles();
            }
        }
        let ghost before = spec_flatten(self.doc.content@);
        self.doc.push(elem);
        proof {
            lemma_elems_stay_append(before, spec_flatten(seq![elem]));
            lemma_flatten_one(elem);
            if adds_no_text(elem) {
                let after = spec_flatten(self.doc.content@);
                assert forall|k: int| 0 <= k < after.len() && #[trigger] is_text(after[k]) implies k < before.len()
                    && after[k] == before[k] by {
                    if k >= before.len() {
                        assert(after[k] == spec_flatten(seq![elem])[k - before.len()]);
                    }
                }
            }
        }
    }

    /// Reports every open style as unterminated and closes it.
    pub fn close_styles(&mut self)
        requires
            old(self).wf(),
        ensures
            reports_grow(old(self).reports@, final(self).reports@),
            final(self).wf(),
            final(self).doc.content@ == old(self).doc.content@,
            final(self).layouts == old(self).layouts,
            final(self).sems == old(self).sems,
            forall|i: int| 0 <= i < 4 ==> final(self).styles.toggled@[i] is None,
            final(self).reports@ == old(self).reports@ + spec_style_reports(old(self).styles),
    {
        let open = self.styles.unterminated();
        let ghost styles = self.styles;
        let ghost before = self.reports@;
        let mut i: usize = 0;
        while i < open.len()
            invariant
                0 <= i <= open@.len(),
                self.wf(),
                self.doc.content@ == old(self).doc.content@,
                self.layouts == old(self).layouts,
                self.sems == old(self).sems,
                self.reports@ == before + open@.subrange(0, i as int).map_values(|t: Token| unterminated_report(t)),
            decreases open@.len() - i,
        {
            let ghost prev = self.reports@;
            self.reports.push(Report { kind: ReportKind::Error, code: ReportCode::UnterminatedStyle, span: open[i] });
            proof {
                let a = open@.subrange(0, i as int).map_values(|t: Token| unterminated_report(t));
                let b = open@.subrange(0, i + 1).map_values(|t: Token| unterminated_report(t));
                assert(b.len() == a.len() + 1);
                assert(open@.subrange(0, i + 1)[i as int] == open@[i as int]);
                assert(b[i as int] == unterminated_report(open@[i as int]));
                assert(b =~= a.push(unterminated_report(open@[i as int])));
                assert(self.reports@ =~= prev.push(unterminated_report(open@[i as int])));
                assert(self.reports@ =~= before + b);
            }
            i += 1;
        }
        proof {
            assert(open@.subrange(0, i as int) =~= open@);
            let g = |t: Option<Token>| t->0;
            let h = |t: Option<Token>| unterminated_report(t->0);
            let some = styles.toggled@.filter(|t: Option<Token>| t is Some);
            assert(open@ == some.map_values(g));
            assert(open@.map_values(|t: Token| unterminated_report(t)) =~= some.map_values(h));
        }
        self.styles = StyleState::new();
    }

    /// Warns, over `span`, that the reference name `name` is already
    /// defined in the document, if it is.
    pub fn report_duplicate(&mut self, name: &[char], span: Token)
        requires
            old(self).wf(),
        ensures
            final(self).wf(),
            final(self).doc == old(self).doc,
            final(self).styles == old(self).styles,
            final(self).layouts == old(self).layouts,
            final(self).sems == old(self).sems,
            final(self).reports@ == old(self).reports@ + if exists|i: int| spec_last_definition(old(self).doc.content@, name@, i) {
                seq![Report { kind: ReportKind::Warning, code: ReportCode::DuplicateReferenceName, span }]
            } else {
                Seq::<Report>::empty()
            },
    {
        let ghost before = self.reports@;
        match self.doc.find_reference(name) {
            Some(i) => {
                proof { assert(spec_last_definition(self.doc.content@, name@, i as int)); }
                self.reports.push(Report { kind: ReportKind::Warning, code: ReportCode::DuplicateReferenceName, span });
                proof {
                    assert(self.reports@ =~= before + seq![Report { kind: ReportKind::Warning, code: ReportCode::DuplicateReferenceName, span }]);
                }
            },
            None => {
                proof {
                    assert forall|i: int| !spec_last_definition(self.doc.content@, name@, i) by {
                        if 0 <= i < self.doc.content@.len() {
                            assert(!spec_defines_reference(self.doc.content@[i], name@));
                        }
                    }
                    assert(self.reports@ =~= before + Seq::<Report>::empty());
                }
            },
        }
    }

    /// Adds the section `sec`; when an element already defines its
    /// reference name, a warning over `refname` says that the name now
    /// refers to the new section.
    pub fn push_section(&mut self, sec: Section, refname: Token)
        requires
            old(self).wf(),
        ensures
            reports_grow(old(self).reports@, final(self).reports@),
            final(self).wf(),
            final(self).layouts == old(self).layouts,
            final(self).sems == old(self).sems,
            spec_flatten(final(self).doc.content@) == spec_flatten(old(self).doc.content@).push(Element::Section(sec)),
            texts_kept(spec_flatten(old(self).doc.content@), spec_flatten(final(self).doc.content@)),
            elems_stay(spec_flatten(old(self).doc.content@), spec_flatten(final(self).doc.content@)),
            final(self).reports@ == old(self).reports@ + if spec_redefines(old(self).doc.content@, sec.reference) {
                seq![Report { kind: ReportKind::Warning, code: ReportCode::DuplicateReferenceName, span: refname }]
            } else {
                Seq::<Report>::empty()
            } + spec_closing_reports(old(self).doc.content@, old(self).styles, Element::Section(sec)),
    {
        let ghost before = self.reports@;
        let ghost dup = spec_redefines(self.doc.content@, sec.reference);
        match &sec.reference {
            Some(r) => {
                let name = str_to_chars(r.as_str());
                match self.doc.find_reference(name.as_slice()) {
                    Some(i) => {
                        proof {
                            assert(spec_last_definition(self.doc.content@, r@, i as int));
                            assert(dup);
                        }
                        self.reports.push(Report { kind: ReportKind::Warning, code: ReportCode::DuplicateReferenceName, span: refname });
                        proof {
                            assert(self.reports@ =~= before + seq![Report { kind: ReportKind::Warning, code: ReportCode::DuplicateReferenceName, span: refname }]);
                        }
                    },
                    None => {
                        proof {
                            assert forall|i: int| !spec_last_definition(self.doc.content@, r@, i) by {
                                if 0 <= i < self.doc.content@.len() {
                                    assert(!spec_defines_reference(self.doc.content@[i], r@));
                                }
                            }
                            assert(!dup);
                            assert(self.reports@ =~= before + Seq::<Report>::empty());
                        }
                    },
                }
            },
            None => {
                proof {
                    assert(!dup);
                    assert(self.reports@ =~= before + Seq::<Report>::empty());
                }
            },
        }
        let ghost e = Element::Section(sec);
        let ghost mid = self.reports@;
        self.push(Element::Section(sec));
        proof {
            lemma_flatten_one(e);
            assert(self.reports@ =~= before + (if dup {
                seq![Report { kind: ReportKind::Warning, code: ReportCode::DuplicateReferenceName, span: refname }]
            } else {
                Seq::<Report>::empty()
            }) + spec_closing_reports(old(self).doc.content@, old(self).styles, e));
        }
    }

    /// The text `s[from..to]` as a text element, unless it is empty once
    /// normalised.
    pub fn push_text(&mut self, s: &[char], from: usize, to: usize)
        requires
            old(self).wf(),
            from <= to <= s@.len(),
        ensures
            reports_grow(old(self).reports@, final(self).reports@),
            final(self).wf(),
            final(self).layouts == old(self).layouts,
            final(self).sems == old(self).sems,
            final(self).styles == old(self).styles,
            forall|k: int|
                0 <= k < spec_flatten(final(self).doc.content@).len() && #[trigger] is_text(spec_flatten(final(self).doc.content@)[k])
                    ==> (k < spec_flatten(old(self).doc.content@).len() && spec_flatten(final(self).doc.content@)[k]
                    == spec_flatten(old(self).doc.content@)[k]) || spec_location(spec_flatten(final(self).doc.content@)[k])
                    == (Token { start: from, end: to }),
            final(self).reports@ == old(self).reports@,
            spec_added_text(old(self).doc.content@, s@, from as int, to as int).len() == 0
                ==> final(self).doc.content@ == old(self).doc.content@,
            spec_added_text(old(self).doc.content@, s@, from as int, to as int).len() > 0 ==> {
                let before = spec_flatten(old(self).doc.content@);
                let after = spec_flatten(final(self).doc.content@);
                &&& after.len() == before.len() + 1
                &&& after.drop_last() == before
                &&& after.last() matches Element::Text(t)
                &&& t.location == (Token { start: from, end: to })
                &&& t.content@ == spec_added_text(old(self).doc.content@, s@, from as int, to as int)
            },
            elems_stay(spec_flatten(old(self).doc.content@), spec_flatten(final(self).doc.content@)),
    {
        let n = self.doc.content.len();
        let (in_paragraph, after_inline) = if n > 0 {
            match &self.doc.content[n - 1] {
                Element::Paragraph(p) => (true, p.ends_inline()),
                _ => (false, false),
            }
        } else {
            (false, false)
        };
        let content = process_text(s, from, to, in_paragraph, after_inline);
        if content.len() > 0 {
            let t = Text::new(Token { start: from, end: to }, chars_to_string(content.as_slice()));
            let ghost before = spec_flatten(self.doc.content@);
            let ghost e = Element::Text(t);
            self.push(Element::Text(t));
            proof {
                lemma_flatten_one(e);
                let after = spec_flatten(self.doc.content@);
                assert(after == before + seq![e]);
                assert(after.drop_last() =~= before);
            }
        }
    }

    /// Adds the tokens and reports of a text parsed on its own, whose
    /// positions start at `offset` in the text being parsed. A token or span
    /// that would not fit once moved is not moved: tokens are dropped, and
    /// reports keep their span.
    pub fn merge(&mut self, sub_sems: &Semantics, sub_reports: &Vec<Report>, offset: usize)
        requires
            old(self).wf(),
        ensures
            reports_grow(old(self).reports@, final(self).reports@),
            final(self).wf(),
            final(self).doc.content@ == old(self).doc.content@,
            final(self).layouts == old(self).layouts,
            final(self).styles == old(self).styles,
            final(self).sems.tokens@ == spec_added_all(
                old(self).sems.tokens@,
                sub_sems.tokens@.map_values(|t: SemToken| spec_shift_token(t, offset)),
            ),
            final(self).reports@ == old(self).reports@ + sub_reports@.map_values(|r: Report| spec_shift_report(r, offset)),
    {
        let mut i: usize = 0;
        while i < sub_sems.tokens.len()
            invariant
                0 <= i <= sub_sems.tokens@.len(),
                self.wf(),
                self.doc.content@ == old(self).doc.content@,
                self.layouts == old(self).layouts,
                self.styles == old(self).styles,
                self.reports@ == old(self).reports@,
                self.sems.tokens@ == spec_added_all(
                    old(self).sems.tokens@,
                    sub_sems.tokens@.subrange(0, i as int).map_values(|t: SemToken| spec_shift_token(t, offset)),
                ),
            decreases sub_sems.tokens@.len() - i,
        {
            let t: SemToken = sub_sems.tokens[i];
            match (t.start.checked_add(offset), t.end.checked_add(offset)) {
                (Some(a), Some(b)) => self.sems.add(a, b, t.kind),
                _ => {},
            }
            proof {
                let xs = sub_sems.tokens@.subrange(0, i + 1).map_values(|t: SemToken| spec_shift_token(t, offset));
                assert(xs.drop_last() =~= sub_sems.tokens@.subrange(0, i as int).map_values(
                    |t: SemToken| spec_shift_token(t, offset),
                ));
                assert(xs.last() == spec_shift_token(t, offset));
            }
            i += 1;
        }
        assert(sub_sems.tokens@.subrange(0, i as int) =~= sub_sems.tokens@);
        let ghost base = self.reports@;
        let mut j: usize = 0;
        while j < sub_reports.len()
            invariant
                0 <= j <= sub_reports@.len(),
                self.wf(),
                self.doc.content@ == old(self).doc.content@,
                self.layouts == old(self).layouts,
                self.styles == old(self).styles,
                self.sems.tokens@ == spec_added_all(
                    old(self).sems.tokens@,
                    sub_sems.tokens@.map_values(|t: SemToken| spec_shift_token(t, offset)),
                ),
                self.reports@ == base + sub_reports@.subrange(0, j as int).map_values(
                    |r: Report| spec_shift_report(r, offset),
                ),
            decreases sub_reports@.len() - j,
        {
            let r: Report = sub_reports[j];
            match (r.span.start.checked_add(offset), r.span.end.checked_add(offset)) {
                (Some(a), Some(b)) => self.reports.push(Report { kind: r.kind, code: r.code, span: Token { start: a, end: b } }),
                _ => self.reports.push(r),
            }
            proof {
                let ys = sub_reports@.subrange(0, j + 1).map_values(|r: Report| spec_shift_report(r, offset));
                assert(ys =~= sub_reports@.subrange(0, j as int).map_values(|r: Report| spec_shift_report(r, offset)).push(
                    spec_shift_report(r, offset),
                ));
            }
            j += 1;
        }
        assert(sub_reports@.subrange(0, j as int) =~= sub_reports@);
    }

    /// Adds the tokens and reports of a text parsed on its own, whose
    /// character `i` stands at `map[i]` in the text being parsed. A token or
    /// span that reaches past the map is not moved: tokens are dropped, and
    /// reports keep their span.
    pub fn merge_mapped(&mut self, sub_sems: &Semantics, sub_reports: &Vec<Report>, map: &Vec<usize>)
        requires
            old(self).wf(),
        ensures
            reports_grow(old(self).reports@, final(self).reports@),
            final(self).wf(),
            final(self).doc.content@ == old(self).doc.content@,
            final(self).layouts == old(self).layouts,
            final(self).styles == old(self).styles,
            final(self).sems.tokens@ == spec_added_all(
                old(self).sems.tokens@,
                sub_sems.tokens@.map_values(|t: SemToken| spec_map_token(t, map@)),
            ),
            final(self).reports@ == old(self).reports@ + sub_reports@.map_values(|r: Report| spec_map_report(r, map@)),
    {
        let mut i: usize = 0;
        while i < sub_sems.tokens.len()
            invariant
                0 <= i <= sub_sems.tokens@.len(),
                self.wf(),
                self.doc.content@ == old(self).doc.content@,
                self.layouts == old(self).layouts,
                self.styles == old(self).styles,
                self.reports@ == old(self).reports@,
                self.sems.tokens@ == spec_added_all(
                    old(self).sems.tokens@,
                    sub_sems.tokens@.subrange(0, i as int).map_values(|t: SemToken| spec_map_token(t, map@)),
                ),
            decreases sub_sems.tokens@.len() - i,
        {
            let t: SemToken = sub_sems.tokens[i];
            match map_range(map, t.start, t.end) {
                Some((a, b)) => self.sems.add(a, b, t.kind),
                None => {},
            }
            proof {
                let xs = sub_sems.tokens@.subrange(0, i + 1).map_values(|t: SemToken| spec_map_token(t, map@));
                assert(xs.drop_last() =~= sub_sems.tokens@.subrange(0, i as int).map_values(
                    |t: SemToken| spec_map_token(t, map@),
                ));
                assert(xs.last() == spec_map_token(t, map@));
            }
            i += 1;
        }
        assert(sub_sems.tokens@.subrange(0, i as int) =~= sub_sems.tokens@);
        let ghost base = self.reports@;
        let mut j: usize = 0;
        while j < sub_reports.len()
            invariant
                0 <= j <= sub_reports@.len(),
                self.wf(),
                self.doc.content@ == old(self).doc.content@,
                self.layouts == old(self).layouts,
                self.styles == old(self).styles,
                self.sems.tokens@ == spec_added_all(
                    old(self).sems.tokens@,
                    sub_sems.tokens@.map_values(|t: SemToken| spec_map_token(t, map@)),
                ),
                self.reports@ == base + sub_reports@.subrange(0, j as int).map_values(
                    |r: Report| spec_map_report(r, map@),
                ),
            decreases sub_reports@.len() - j,
        {
            let r: Report = sub_reports[j];
            match map_range(map, r.span.start, r.span.end) {
                Some((a, b)) => self.reports.push(Report { kind: r.kind, code: r.code, span: Token { start: a, end: b } }),
                None => self.reports.push(r),
            }
            proof {
                let ys = sub_reports@.subrange(0, j + 1).map_values(|r: Report| spec_map_report(r, map@));
                assert(ys =~= sub_reports@.subrange(0, j as int).map_values(|r: Report| spec_map_report(r, map@)).push(
                    spec_map_report(r, map@),
                ));
            }
            j += 1;
        }
        assert(sub_reports@.subrange(0, j as int) =~= sub_reports@);
    }

    /// The numbering and bullet of the last element, when it is a list entry.
    pub fn last_entry(&self) -> (r: Option<(Vec<(bool, usize)>, Option<String>)>)
        ensures
            match r {
                Some((n, b)) => self.doc.content@.len() > 0 && (self.doc.content@.last() matches Element::ListEntry(e)
                    && n@ == e.numbering@ && b == e.bullet),
                None => !(self.doc.content@.len() > 0 && self.doc.content@.last() is ListEntry),
            },
    {
        let n = self.doc.content.len();
        if n == 0 {
            return None;
        }
        match &self.doc.content[n - 1] {
            Element::ListEntry(e) => {
                let mut numbering: Vec<(bool, usize)> = Vec::new();
                let mut i: usize = 0;
                while i < e.numbering.len()
                    invariant
                        0 <= i <= e.numbering@.len(),
                        numbering@ == e.numbering@.subrange(0, i as int),
                    decreases e.numbering@.len() - i,
                {
                    numbering.push(e.numbering[i]);
                    i += 1;
                }
                assert(numbering@ =~= e.numbering@);
                let bullet = match &e.bullet {
                    Some(b) => Some(b.clone()),
                    None => None,
                };
                Some((numbering, bullet))
            },
            _ => None,
        }
    }

    /// Reports what is still open at the end of the text: the styles, then
    /// the layouts, outermost first, each at its first marker.
    pub fn finish(&mut self)
        requires
            old(self).wf(),
        ensures
            reports_grow(old(self).reports@, final(self).reports@),
            final(self).wf(),
            final(self).doc.content@ == old(self).doc.content@,
            final(self).reports@ == old(self).reports@ + spec_style_reports(old(self).styles)
                + old(self).layouts.stack@.map_values(|l: (Vec<Token>, LayoutType)| spec_layout_report(l.0@)),
            final(self).layouts.stack@.len() == 0,
            forall|i: int| 0 <= i < 4 ==> final(self).styles.toggled@[i] is None,
            final(self).sems == old(self).sems,
    {
        self.close_styles();
        proof {
            assert forall|i: int| 0 <= i < self.layouts.stack@.len() implies #[trigger] self.layouts.stack@[i].0@.len() > 0 by {
                assert(stack_view(self.layouts.stack@)[i].0.len() > 0);
            }
        }
        let open = self.layouts.unterminated();
        let ghost base = self.reports@;
        let ghost stack = self.layouts.stack@;
        proof {
            assert(open@ =~= stack.map_values(|l: (Vec<Token>, LayoutType)| spec_layout_report(l.0@)));
        }
        let mut i: usize = 0;
        while i < open.len()
            invariant
                0 <= i <= open@.len(),
                self.wf(),
                self.doc.content@ == old(self).doc.content@,
                forall|k: int| 0 <= k < 4 ==> self.styles.toggled@[k] is None,
                self.sems == old(self).sems,
                self.reports@ == base + open@.subrange(0, i as int),
            decreases open@.len() - i,
        {
            self.reports.push(open[i]);
            proof {
                assert(open@.subrange(0, i + 1) =~= open@.subrange(0, i as int).push(open@[i as int]));
            }
            i += 1;
        }
        assert(open@.subrange(0, i as int) =~= open@);
        self.layouts = LayoutState::new();
        proof {
            assert(stack_view(self.layouts.stack@) =~= Seq::<(Seq<Token>, LayoutType)>::empty());
        }
    }
}

/// The range `a..b` of a text whose character `i` stands at `map[i]`: from
/// the place of its first character to just after the place of its last.
pub open spec fn spec_map_range(map: Seq<usize>, a: usize, b: usize) -> Option<(usize, usize)> {
    if a < b && b <= map.len() && map[b - 1] < usize::MAX {
        Some((map[a as int], (map[b - 1] + 1) as usize))
    } else if a == b && a < map.len() {
        Some((map[a as int], map[a as int]))
    } else {
        None
    }
}

/// The report of a layout left open, at its first marker.
pub open spec fn spec_layout_report(markers: Seq<Token>) -> Report {
    Report { kind: ReportKind::Error, code: ReportCode::UnterminatedLayout, span: markers[0] }
}

/// The token `t` moved by `offset`, unless it would not fit.
pub open spec fn spec_shift_token(t: SemToken, offset: usize) -> Option<SemToken> {
    if t.start + offset <= usize::MAX && t.end + offset <= usize::MAX {
        Some(SemToken { start: (t.start + offset) as usize, end: (t.end + offset) as usize, kind: t.kind })
    } else {
        None
    }
}

/// The report `r` moved by `offset`; unmoved when its span would not fit.
pub open spec fn spec_shift_report(r: Report, offset: usize) -> Report {
    if r.span.start + offset <= usize::MAX && r.span.end + offset <= usize::MAX {
        Report {
            kind: r.kind,
            code: r.code,
            span: Token { start: (r.span.start + offset) as usize, end: (r.span.end + offset) as usize },
        }
    } else {
        r
    }
}

/// The token `t` of a text whose character `i` stands at `map[i]`, in place;
/// none when its range reaches past the map.
pub open spec fn spec_map_token(t: SemToken, map: Seq<usize>) -> Option<SemToken> {
    match spec_map_range(map, t.start, t.end) {
        Some((a, b)) => Some(SemToken { start: a, end: b, kind: t.kind }),
        None => None,
    }
}

/// The report `r` of a text whose character `i` stands at `map[i]`, in
/// place; unmoved when its span reaches past the map.
pub open spec fn spec_map_report(r: Report, map: Seq<usize>) -> Report {
    match spec_map_range(map, r.span.start, r.span.end) {
        Some((a, b)) => Report { kind: r.kind, code: r.code, span: Token { start: a, end: b } },
        None => r,
    }
}

/// See `spec_map_range`.
pub fn map_range(map: &Vec<usize>, a: usize, b: usize) -> (r: Option<(usize, usize)>)
    ensures
        r == spec_map_range(map@, a, b),
{
    if a < b && b <= map.len() && map[b - 1] < usize::MAX {
        Some((map[a], map[b - 1] + 1))
    } else if a == b && a < map.len() {
        Some((map[a], map[a]))
    } else {
        None
    }
}

/// Why a text meant to give one paragraph did not.
#[derive(Clone, Copy, PartialEq, Eq, Debug, Structural)]
pub enum ParagraphError {
    /// The text gave nothing.
    Empty,
    /// The text gave more than one top-level element.
    Many,
    /// The text gave an element that is not a paragraph.
    NotParagraph,
}

/// The content of the single paragraph that `content` is, if it is one.
pub open spec fn spec_single_paragraph(content: Seq<Element>) -> Result<Seq<Element>, ParagraphError> {
    if content.len() == 0 {
        Err(ParagraphError::Empty)
    } else if content.len() > 1 {
        Err(ParagraphError::Many)
    } else {
        match content[0] {
            Element::Paragraph(p) => Ok(p.content@),
            _ => Err(ParagraphError::NotParagraph),
        }
    }
}

/// The content of the single paragraph that `doc` is, if it is one.
pub fn single_paragraph(doc: Document) -> (r: Result<Vec<Element>, ParagraphError>)
    ensures
        match r {
            Ok(v) => spec_single_paragraph(doc.content@) == Ok::<Seq<Element>, ParagraphError>(v@),
            Err(e) => spec_single_paragraph(doc.content@) == Err::<Seq<Element>, ParagraphError>(e),
        },
{
    let ghost c = doc.content@;
    let mut content = doc.content;
    if content.len() == 0 {
        return Err(ParagraphError::Empty);
    }
    if content.len() > 1 {
        return Err(ParagraphError::Many);
    }
    match content.pop() {
        Some(Element::Paragraph(p)) => Ok(p.content),
        _ => Err(ParagraphError::NotParagraph),
    }
}

/// The rules of the parser.
pub struct Parser {
    pub paragraph: ParagraphRule,
    pub script: ScriptRule,
    pub raw: RawRule,
    pub list: ListRule,
    pub latex: LatexRule,
    pub media: MediaRule,
    pub layout: LayoutRule,
    pub style: StyleRule,
    pub section: SectionRule,
    pub link: LinkRule,
    pub reference: ReferenceRule,
    pub internal_link: InternalLinkRule,
    pub lua_block: LuaRule,
    pub inline_lua: InlineLuaRule,
}

/// Keeps `best` unless `cand` starts strictly before it.
fn earliest(best: Option<RuleMatch>, cand: Option<RuleMatch>) -> (r: Option<RuleMatch>)
    ensures
        r == (match (best, cand) {
            (None, c) => c,
            (Some(b), None) => Some(b),
            (Some(b), Some(c)) => if spec_match_range(c).start < spec_match_range(b).start {
                Some(c)
            } else {
                Some(b)
            },
        }),
{
    match (best, cand) {
        (None, c) => c,
        (Some(b), None) => Some(b),
        (Some(b), Some(c)) => {
            let cs = match &c {
                RuleMatch::Paragraph(t) => t.start,
                RuleMatch::Script(x) => x.whole.start,
                RuleMatch::Raw(x) => x.whole.start,
                RuleMatch::RawKind(x) => x.whole.start,
                RuleMatch::List(x) => x.whole.start,
                RuleMatch::Latex(x) => x.whole.start,
                RuleMatch::Media(x) => x.whole.start,
                RuleMatch::Layout(x) => x.whole.start,
                RuleMatch::Style(t, _) => t.start,
                RuleMatch::Section(x) => x.whole.start,
                RuleMatch::Link(x) => x.whole.start,
                RuleMatch::Reference(x) => x.whole.start,
                RuleMatch::InternalLink(x) => x.whole.start,
                RuleMatch::LuaBlock(x) => x.whole.start,
                RuleMatch::InlineLua(x) => x.whole.start,
            };
            let bs = match &b {
                RuleMatch::Paragraph(t) => t.start,
                RuleMatch::Script(x) => x.whole.start,
                RuleMatch::Raw(x) => x.whole.start,
                RuleMatch::RawKind(x) => x.whole.start,
                RuleMatch::List(x) => x.whole.start,
                RuleMatch::Latex(x) => x.whole.start,
                RuleMatch::Media(x) => x.whole.start,
                RuleMatch::Layout(x) => x.whole.start,
                RuleMatch::Style(t, _) => t.start,
                RuleMatch::Section(x) => x.whole.start,
                RuleMatch::Link(x) => x.whole.start,
                RuleMatch::Reference(x) => x.whole.start,
                RuleMatch::InternalLink(x) => x.whole.start,
                RuleMatch::LuaBlock(x) => x.whole.start,
                RuleMatch::InlineLua(x) => x.whole.start,
            };
            if cs < bs {
                Some(c)
            } else {
                Some(b)
            }
        },
    }
}

/// The first match of rule `r` at or after `from` is `c`.
pub open spec fn spec_first_of(s: Seq<char>, r: RuleId, from: int, c: Option<RuleMatch>) -> bool {
    match c {
        Some(m) => spec_match_rule(m) == r && spec_match_valid(s, m) && from <= spec_match_range(m).start
            && forall|q: int| from <= q < spec_match_range(m).start ==> !spec_rule_at(s, r, q),
        None => forall|q: int| from <= q <= s.len() ==> !spec_rule_at(s, r, q),
    }
}

impl Parser {
    pub open spec fn wf(&self) -> bool {
        &&& schema_view(self.raw.properties@) == raw_schema()
        &&& schema_view(self.list.properties@) == list_schema()
        &&& schema_view(self.latex.properties@) == latex_schema()
        &&& schema_view(self.media.properties@) == media_schema()
        &&& schema_view(self.layout.properties@) == layout_schema()
        &&& schema_view(self.reference.properties@) == reference_schema()
        &&& schema_view(self.lua_block.properties@) == lua_block_schema()
        &&& schema_view(self.inline_lua.properties@) == inline_lua_schema()
        &&& kinds_view(self.script.eval_kinds@) == spec_eval_kinds()
    }

    pub fn new() -> (r: Parser)
        ensures
            r.wf(),
    {
        Parser {
            paragraph: ParagraphRule::new(),
            script: ScriptRule::new(),
            raw: RawRule::new(),
            list: ListRule::new(),
            latex: LatexRule::new(),
            media: MediaRule::new(),
            layout: LayoutRule::new(),
            style: StyleRule::new(),
            section: SectionRule::new(),
            link: LinkRule::new(),
            reference: ReferenceRule::new(),
            internal_link: InternalLinkRule::new(),
            lua_block: LuaRule::new(),
            inline_lua: InlineLuaRule::new(),
        }
    }

    /// The first match of rule `r` at or after `from`.
    #[verifier::spinoff_prover]
    #[verifier::rlimit(60)]
    pub fn first_of(&self, s: &[char], r: RuleId, from: usize) -> (c: Option<RuleMatch>)
        requires
            from <= s@.len(),
        ensures
            spec_first_of(s@, r, from as int, c),
            c matches Some(m) ==> spec_match_advances(s@, m),
    {
        proof {
            reveal_strlit("$|");
            reveal_strlit("$");
            reveal_strlit("#+LAYOUT_BEGIN");
            reveal_strlit("#+LAYOUT_NEXT");
            reveal_strlit("#+LAYOUT_END");
        }
        let n = s.len();
        match r {
            RuleId::Paragraph => match self.paragraph.find(s, from) {
                Some((p, e)) => Some(RuleMatch::Paragraph(Token { start: p, end: e })),
                None => None,
            },
            RuleId::Script => match self.script.find(s, from) {
                Some(m) => Some(RuleMatch::Script(m)),
                None => None,
            },
            RuleId::Raw => match self.raw.find(s, from) {
                Some(Ok(m)) => Some(RuleMatch::Raw(m)),
                Some(Err(m)) => Some(RuleMatch::RawKind(m)),
                None => None,
            },
            RuleId::List => match self.list.find(s, from) {
                Some(m) => Some(RuleMatch::List(m)),
                None => None,
            },
            RuleId::Latex => match self.latex.find(s, from) {
                Some(m) => Some(RuleMatch::Latex(m)),
                None => None,
            },
            RuleId::Media => match self.media.find(s, from) {
                Some(m) => Some(RuleMatch::Media(m)),
                None => None,
            },
            RuleId::Layout => match self.layout.find(s, from) {
                Some(m) => Some(RuleMatch::Layout(m)),
                None => None,
            },
            RuleId::Style => match self.style.find(s, from) {
                Some((p, k, l)) => {
                    proof {
                        assert(spec_style_at(s@, p as int) == Some((k, l)));
                        assert(p + l <= s@.len());
                    }
                    Some(RuleMatch::Style(Token { start: p, end: p + l }, k))
                },
                None => None,
            },
            RuleId::Section => match self.section.find(s, from) {
                Some(m) => {
                    proof { lemma_section_match_wf(s@, m.whole.start as int); }
                    Some(RuleMatch::Section(m))
                },
                None => None,
            },
            RuleId::Link => match self.link.find(s, from) {
                Some(m) => Some(RuleMatch::Link(m)),
                None => None,
            },
            RuleId::Reference => match self.reference.find(s, from) {
                Some(m) => Some(RuleMatch::Reference(m)),
                None => None,
            },
            RuleId::InternalLink => match self.internal_link.find(s, from) {
                Some(m) => Some(RuleMatch::InternalLink(m)),
                None => None,
            },
            RuleId::LuaBlock => match self.lua_block.find(s, from) {
                Some(m) => Some(RuleMatch::LuaBlock(m)),
                None => None,
            },
            RuleId::InlineLua => match self.inline_lua.find(s, from) {
                Some(m) => Some(RuleMatch::InlineLua(m)),
                None => None,
            },
        }
    }

    /// The match the parser applies next at or after `from`: the earliest
    /// match of the rules enabled in `mode`; among matches that start
    /// together, the one of the rule consulted first.
    pub fn next_match(&self, s: &[char], from: usize, mode: ParseMode) -> (r: Option<RuleMatch>)
        requires
            from <= s@.len(),
        ensures
            match r {
                Some(m) => spec_match_valid(s@, m) && spec_match_advances(s@, m) && spec_enabled(spec_match_rule(m), mode)
                    && from <= spec_match_range(m).start
                    && (forall|x: RuleId, q: int| spec_enabled(x, mode) && from <= q < spec_match_range(m).start
                        ==> !spec_rule_at(s@, x, q))
                    && (forall|x: RuleId| spec_enabled(x, mode) && spec_rank(x) < spec_rank(spec_match_rule(m))
                        ==> !spec_rule_at(s@, x, spec_match_range(m).start as int)),
                None => forall|x: RuleId, q: int| spec_enabled(x, mode) && from <= q <= s@.len()
                    ==> !spec_rule_at(s@, x, q),
            },
    {
        let rules = register();
        let mut best: Option<RuleMatch> = None;
        let mut i: usize = 0;
        while i < rules.len()
            invariant
                0 <= i <= rules@.len(),
                rules@.len() == 14,
                forall|k: int| 0 <= k < 14 ==> spec_rank(#[trigger] rules@[k]) == k,
                from <= s@.len(),
                match best {
                    Some(m) => spec_match_valid(s@, m) && spec_match_advances(s@, m)
                        && spec_enabled(spec_match_rule(m), mode)
                        && from <= spec_match_range(m).start && spec_rank(spec_match_rule(m)) < i
                        && (forall|x: RuleId, q: int| spec_enabled(x, mode) && spec_rank(x) < i && from <= q
                            < spec_match_range(m).start ==> !spec_rule_at(s@, x, q))
                        && (forall|x: RuleId| spec_enabled(x, mode) && spec_rank(x) < spec_rank(spec_match_rule(m))
                            ==> !spec_rule_at(s@, x, spec_match_range(m).start as int)),
                    None => forall|x: RuleId, q: int| spec_enabled(x, mode) && spec_rank(x) < i && from <= q
                        <= s@.len() ==> !spec_rule_at(s@, x, q),
                },
            decreases 14 - i,
        {
            let r = rules[i];
            let enabled = !(mode.paragraph_only && (r == RuleId::List || r == RuleId::Layout || r == RuleId::LuaBlock
                || r == RuleId::InlineLua));
            if enabled {
                let c = self.first_of(s, r, from);
                let ghost old_best = best;
                best = earliest(best, c);
                proof {
                    assert(spec_rank(r) == i);
                    assert forall|x: RuleId| #![trigger spec_rank(x)] spec_rank(x) == i implies x == r by {
                        match x {
                            RuleId::Paragraph => {},
                            _ => {},
                        }
                    }
                }
            }
            i += 1;
        }
        proof {
            assert forall|x: RuleId| #![trigger spec_rank(x)] spec_rank(x) < 14 by {
                match x {
                    RuleId::Paragraph => {},
                    _ => {},
                }
            }
        }
        best
    }
}

/// The range a match covers.
fn range_of(m: &RuleMatch) -> (r: Token)
    ensures
        r == spec_match_range(*m),
{
    match m {
        RuleMatch::Paragraph(t) => *t,
        RuleMatch::Script(x) => x.whole,
        RuleMatch::Raw(x) => x.whole,
        RuleMatch::RawKind(x) => x.whole,
        RuleMatch::List(x) => x.whole,
        RuleMatch::Latex(x) => x.whole,
        RuleMatch::Media(x) => x.whole,
        RuleMatch::Layout(x) => x.whole,
        RuleMatch::Style(t, _) => *t,
        RuleMatch::Section(x) => x.whole,
        RuleMatch::Link(x) => x.whole,
        RuleMatch::Reference(x) => x.whole,
        RuleMatch::InternalLink(x) => x.whole,
        RuleMatch::LuaBlock(x) => x.whole,
        RuleMatch::InlineLua(x) => x.whole,
    }
}

/// Whether `p` is of the layouts of a parse state.
proof fn lemma_layout_step_wf(s: Seq<char>, m: LayoutMatch, st: Seq<(Seq<Token>, LayoutType)>)
    requires
        layouts_wf(st),
        spec_layout_step(s, m, st) is Ok,
    ensures
        layouts_wf(spec_layout_step(s, m, st)->Ok_0.4),
{
    let r = spec_layout_step(s, m, st)->Ok_0.4;
    if m.index == 0 {
        assert forall|i: int| 0 <= i < r.len() implies (#[trigger] r[i]).0.len() > 0 by {
            if i < st.len() {
                assert(r[i] == st[i]);
            }
        }
    } else if m.index == 1 {
        assert forall|i: int| 0 <= i < r.len() implies (#[trigger] r[i]).0.len() > 0 by {
            if i < st.len() - 1 {
                assert(r[i] == st[i]);
            }
        }
    } else {
        assert forall|i: int| 0 <= i < r.len() implies (#[trigger] r[i]).0.len() > 0 by {
            assert(r[i] == st[i]);
        }
    }
}

impl Parser {
    /// Parses `s` in `mode`: the document, its semantic tokens and the
    /// reports of the rules. Scripts are kept in the document, left to run.
    /// From the empty state, each step adds the text before the first match
    /// and applies that match (see `spec_trace`), until no rule matches and
    /// what is left is added and what is still open reported (see
    /// `spec_last_step`). The document starts with the text before the first
    /// match (see `spec_lead_text`); a text in which no rule matches gives
    /// that text alone (none when it is empty once normalised), no report
    /// and no semantic token.
    #[verifier::spinoff_prover]
    #[verifier::rlimit(60)]
    pub fn parse(&self, s: &[char], mode: ParseMode) -> (r: ParseState)
        requires
            self.wf(),
        ensures
            r.wf(),
            texts_clean(s@, spec_flatten(r.doc.content@), mode),
            spec_lead_text(s@, mode, Seq::empty(), 0, 0, spec_flatten(r.doc.content@)),
            exists|o: ParseState| #[trigger] spec_fresh(o) && spec_first_step(s@, mode, o, 0, r),
            spec_parses_to(s@, mode, r),
            spec_no_match_from(s@, 0, mode) ==> {
                &&& r.reports@.len() == 0
                &&& r.sems.tokens@.len() == 0
                &&& spec_flatten(r.doc.content@).len() == if spec_added_text(Seq::empty(), s@, 0, s@.len() as int).len() > 0 {
                    1int
                } else {
                    0int
                }
            },
        decreases s@.len(), 5nat,
    {
        let mut st = ParseState::new();
        let ghost o = st;
        let mut pos: usize = 0;
        let ghost mut tsts: Seq<ParseState> = seq![st];
        let ghost mut tps: Seq<int> = seq![0int];
        assert(spec_flatten(st.doc.content@) =~= Seq::<Element>::empty());
        loop
            invariant_except_break
                spec_trace(s@, mode, tsts, tps),
                tsts[0] == o,
                tps[0] == 0,
                tsts.last() == st,
                tps.last() == pos as int,
                pos == 0 ==> st == o,
                pos == 0 ==> {
                    &&& st.doc.content@.len() == 0
                    &&& st.reports@.len() == 0
                    &&& st.sems.tokens@.len() == 0
                    &&& st.styles.toggled@.len() == 4
                    &&& (forall|i: int| 0 <= i < 4 ==> st.styles.toggled@[i] is None)
                    &&& st.layouts.stack@.len() == 0
                },
            invariant
                self.wf(),
                st.wf(),
                pos <= s@.len(),
                texts_clean(s@, spec_flatten(st.doc.content@), mode),
                pos > 0 ==> spec_lead_text(s@, mode, Seq::empty(), 0, 0, spec_flatten(st.doc.content@)),
                spec_no_match_from(s@, 0, mode) ==> pos == 0,
                spec_fresh(o),
                pos > 0 ==> spec_first_step(s@, mode, o, 0, st),
            ensures
                spec_fresh(o),
                spec_first_step(s@, mode, o, 0, st),
                exists|sts: Seq<ParseState>, ps: Seq<int>| #[trigger] spec_trace(s@, mode, sts, ps) && spec_fresh(sts[0])
                    && ps[0] == 0 && spec_last_step(s@, mode, sts.last(), ps.last(), st),
                st.wf(),
                texts_clean(s@, spec_flatten(st.doc.content@), mode),
                spec_lead_text(s@, mode, Seq::empty(), 0, 0, spec_flatten(st.doc.content@)),
                spec_no_match_from(s@, 0, mode) ==> {
                    &&& st.reports@.len() == 0
                    &&& st.sems.tokens@.len() == 0
                    &&& spec_flatten(st.doc.content@).len() == if spec_added_text(Seq::empty(), s@, 0, s@.len() as int).len()
                        > 0 {
                        1int
                    } else {
                        0int
                    }
                },
            decreases s@.len() - pos,
        {
            let ghost before = spec_flatten(st.doc.content@);
            let ghost sb = st;
            let ghost first = pos == 0;
            proof {
                if first {
                    assert(st.doc.content@ =~= Seq::<Element>::empty());
                    assert(before =~= Seq::<Element>::empty());
                    lemma_none_filtered(st.styles.toggled@, |t: Option<Token>| t is Some);
                    assert(spec_style_reports(st.styles) =~= Seq::<Report>::empty());
                }
            }
            let step = self.parse_until_script(s, mode, &mut st, pos);
            let ghost (sts2, ps2) = choose|sts: Seq<ParseState>, ps: Seq<int>| #[trigger] spec_trace(s@, mode, sts, ps)
                && sts[0] == sb && ps[0] == pos as int && match step {
                    None => spec_last_step(s@, mode, sts.last(), ps.last(), st),
                    Some((sc, _)) => spec_lead_state(s@, mode, sts.last(), ps.last(), st)
                        && spec_first_match(s@, ps.last(), mode) == sc.location.start
                        && sc.location.start < sc.location.end
                        && spec_chosen_match(s@, sc.location.start as int, mode) is Script,
                };
            proof {
                lemma_trace_concat(s@, mode, tsts, tps, sts2, ps2);
                tsts = tsts + sts2.drop_first();
                tps = tps + ps2.drop_first();
            }
            proof {
                let after = spec_flatten(st.doc.content@);
                assert forall|k: int| 0 <= k < after.len() && #[trigger] is_text(after[k])
                    implies spec_clean(s@, spec_location(after[k]), mode) by {
                    if k < before.len() && after[k] == before[k] {
                        assert(is_text(before[k]));
                    }
                }
                if !first {
                    lemma_lead_stays(s@, mode, Seq::empty(), 0, 0, before, after);
                    lemma_first_step_stays(s@, mode, o, 0, sb, st);
                }
            }
            match step {
                None => {
                    proof {
                        assert(spec_trace(s@, mode, tsts, tps) && spec_fresh(tsts[0]) && tps[0] == 0
                            && spec_last_step(s@, mode, tsts.last(), tps.last(), st));
                    }
                    break;
                },
                Some((script, next)) => {
                    let ghost mid = spec_flatten(st.doc.content@);
                    let ghost sm = st;
                    let ghost e = Element::Script(script);
                    st.push(Element::Script(script));
                    proof {
                        lemma_first_step_stays(s@, mode, o, 0, sm, st);
                        lemma_lead_stays(s@, mode, Seq::empty(), 0, 0, mid, spec_flatten(st.doc.content@));
                        lemma_flatten_one(e);
                        reveal(spec_step);
                        assert(spec_lead_state(s@, mode, tsts.last(), tps.last(), sm));
                        assert(spec_apply_effect(s@, spec_chosen_match(s@, script.location.start as int, mode), sm, st));
                        assert(spec_step(s@, mode, tsts.last(), tps.last(), st, next as int));
                        lemma_trace_push(s@, mode, tsts, tps, st, next as int);
                        tsts = tsts.push(st);
                        tps = tps.push(next as int);
                    }
                    pos = next;
                },
            }
        }
        assert(spec_fresh(o) && spec_first_step(s@, mode, o, 0, st));
        st
    }

    /// Parses `s` in `mode` from `pos` on, into `st`, up to the next script
    /// that the script rule accepts: gives that script, left to run, and
    /// where parsing goes on after it. Gives `None` once the text is done,
    /// after what is still open has been reported. The text elements it
    /// adds are clean: no rule enabled in `mode` matches within them; those
    /// already there stay. The first element it adds is the text before the
    /// first match (see `spec_lead_text`); where no rule matches from `pos`
    /// on, that text is all it adds, and what is still open is reported.
    /// Every match it goes through is a step of `spec_trace`.
    #[verifier::spinoff_prover]
    #[verifier::rlimit(100)]
    pub fn parse_until_script(&self, s: &[char], mode: ParseMode, st: &mut ParseState, pos: usize) -> (r: Option<(Script, usize)>)
        requires
            self.wf(),
            old(st).wf(),
            pos <= s@.len(),
        ensures
            final(st).wf(),
            texts_added_clean(s@, spec_flatten(old(st).doc.content@), spec_flatten(final(st).doc.content@), mode),
            elems_stay(spec_flatten(old(st).doc.content@), spec_flatten(final(st).doc.content@)),
            spec_lead_text(
                s@,
                mode,
                old(st).doc.content@,
                pos as int,
                spec_flatten(old(st).doc.content@).len() as int,
                spec_flatten(final(st).doc.content@),
            ),
            r matches Some((_, next)) ==> pos < next <= s@.len(),
            r matches Some((sc, next)) ==> pos <= sc.location.start && sc.location.end == next
                && (spec_script_at(s@, sc.location.start as int) matches Some(m) && m.whole == sc.location
                && spec_script_result(s@, m) == Ok::<(Seq<char>, ScriptKind, Seq<char>), ReportCode>(
                (sc.kernel@, sc.kind, sc.code@),
            )),
            reports_grow(old(st).reports@, final(st).reports@),
            spec_first_step(s@, mode, *old(st), pos as int, *final(st)),
            exists|sts: Seq<ParseState>, ps: Seq<int>| #[trigger] spec_trace(s@, mode, sts, ps) && sts[0] == *old(st)
                && ps[0] == pos as int && match r {
                    None => spec_last_step(s@, mode, sts.last(), ps.last(), *final(st)),
                    Some((sc, _)) => spec_lead_state(s@, mode, sts.last(), ps.last(), *final(st))
                        && spec_first_match(s@, ps.last(), mode) == sc.location.start
                        && sc.location.start < sc.location.end
                        && spec_chosen_match(s@, sc.location.start as int, mode) is Script,
                },
            spec_script_first(s@, pos as int, mode) ==> (r matches Some((sc, next))
                && sc.location.start == spec_first_match(s@, pos as int, mode)),
            spec_no_match_from(s@, pos as int, mode) ==> {
                &&& r is None
                &&& final(st).sems == old(st).sems
                &&& final(st).reports@ == old(st).reports@ + spec_style_reports(old(st).styles)
                    + old(st).layouts.stack@.map_values(|l: (Vec<Token>, LayoutType)| spec_layout_report(l.0@))
                &&& spec_flatten(final(st).doc.content@).len() == spec_flatten(old(st).doc.content@).len() + if spec_added_text(
                    old(st).doc.content@,
                    s@,
                    pos as int,
                    s@.len() as int,
                ).len() > 0 {
                    1int
                } else {
                    0int
                }
            },
        decreases s@.len(), 4nat,
    {
        let ghost start = spec_flatten(st.doc.content@);
        let ghost f = spec_first_match(s@, pos as int, mode);
        let ghost cond = f < s@.len() && !(spec_chosen_match(s@, f, mode) is Script);
        let ghost mut lw: ParseState = *st;
        let ghost mut aw: ParseState = *st;
        let ghost mut sts: Seq<ParseState> = seq![*st];
        let ghost mut ps: Seq<int> = seq![pos as int];
        let mut p = pos;
        loop
            invariant
                spec_trace(s@, mode, sts, ps),
                sts[0] == *old(st),
                ps[0] == pos as int,
                sts.last() == *st,
                ps.last() == p as int,
                self.wf(),
                st.wf(),
                pos <= p <= s@.len(),
                start == spec_flatten(old(st).doc.content@),
                texts_added_clean(s@, start, spec_flatten(st.doc.content@), mode),
                elems_stay(start, spec_flatten(st.doc.content@)),
                p == pos ==> st.doc.content@ == old(st).doc.content@ && st.reports@ == old(st).reports@
                    && st.sems == old(st).sems && st.styles == old(st).styles && st.layouts == old(st).layouts,
                p > pos ==> spec_lead_text(s@, mode, old(st).doc.content@, pos as int, start.len() as int, spec_flatten(st.doc.content@)),
                spec_no_match_from(s@, pos as int, mode) ==> p == pos,
                spec_script_first(s@, pos as int, mode) ==> p == pos,
                reports_grow(old(st).reports@, st.reports@),
                p > pos && cond ==> spec_lead_state(s@, mode, *old(st), pos as int, lw)
                    && spec_apply_effect(s@, spec_chosen_match(s@, f, mode), lw, aw)
                    && elems_stay(spec_flatten(aw.doc.content@), spec_flatten(st.doc.content@))
                    && reports_grow(aw.reports@, st.reports@),
                p == pos && cond ==> f < s@.len(),
                f == spec_first_match(s@, pos as int, mode),
                cond == (f < s@.len() && !(spec_chosen_match(s@, f, mode) is Script)),
            ensures
                st.wf(),
                pos <= p <= s@.len(),
                start == spec_flatten(old(st).doc.content@),
                texts_added_clean(s@, start, spec_flatten(st.doc.content@), mode),
                elems_stay(start, spec_flatten(st.doc.content@)),
                p == pos ==> st.doc.content@ == old(st).doc.content@ && st.reports@ == old(st).reports@
                    && st.sems == old(st).sems && st.styles == old(st).styles && st.layouts == old(st).layouts,
                p > pos ==> spec_lead_text(s@, mode, old(st).doc.content@, pos as int, start.len() as int, spec_flatten(st.doc.content@)),
                spec_no_match_from(s@, pos as int, mode) ==> p == pos,
                spec_script_first(s@, pos as int, mode) ==> p == pos,
                reports_grow(old(st).reports@, st.reports@),
                p > pos && cond ==> spec_lead_state(s@, mode, *old(st), pos as int, lw)
                    && spec_apply_effect(s@, spec_chosen_match(s@, f, mode), lw, aw)
                    && elems_stay(spec_flatten(aw.doc.content@), spec_flatten(st.doc.content@))
                    && reports_grow(aw.reports@, st.reports@),
                p == pos && cond ==> f < s@.len(),
                f == spec_first_match(s@, pos as int, mode),
                cond == (f < s@.len() && !(spec_chosen_match(s@, f, mode) is Script)),
                forall|x: RuleId, q: int| spec_enabled(x, mode) && p <= q <= s@.len() ==> !spec_rule_at(s@, x, q),
                spec_trace(s@, mode, sts, ps),
                sts[0] == *old(st),
                ps[0] == pos as int,
                sts.last() == *st,
                ps.last() == p as int,
            decreases s@.len() - p,
        {
            match self.next_match(s, p, mode) {
                None => {
                    break;
                },
                Some(m) => {
                    let range = range_of(&m);
                    let ghost mid = spec_flatten(st.doc.content@);
                    let ghost at_start = p == pos;
                    let ghost sp = *st;
                    let ghost pp = p as int;
                    proof {
                        lemma_match_rule_at(s@, m);
                        assert(spec_rule_at(s@, spec_match_rule(m), range.start as int));
                        assert(!spec_no_match_from(s@, pos as int, mode));
                        if at_start {
                            lemma_first_match(s@, pos as int, range.start as int, mode);
                            if spec_script_first(s@, pos as int, mode) {
                                let f = range.start as int;
                                assert(spec_rule_at(s@, RuleId::Script, f));
                                assert(!spec_rule_at(s@, RuleId::Paragraph, f));
                                let rr = spec_match_rule(m);
                                assert(spec_enabled(RuleId::Script, mode));
                                assert(!(spec_rank(RuleId::Script) < spec_rank(rr)));
                                assert(rr != RuleId::Paragraph);
                                assert(rr == RuleId::Script) by {
                                    match rr {
                                        RuleId::Paragraph => {},
                                        RuleId::Script => {},
                                        _ => { assert(spec_rank(rr) > 1); },
                                    }
                                }
                                assert(m is Script);
                            }
                        } else {
                            assert(!spec_script_first(s@, pos as int, mode));
                        }
                    }
                    st.push_text(s, p, range.start);
                    proof {
                        let after = spec_flatten(st.doc.content@);
                        assert forall|k: int| 0 <= k < after.len() && #[trigger] is_text(after[k]) implies (k < start.len()
                            && after[k] == start[k]) || spec_clean(s@, spec_location(after[k]), mode) by {
                            if k < mid.len() && after[k] == mid[k] {
                                assert(is_text(mid[k]));
                            }
                        }
                        lemma_elems_stay_trans(start, mid, after);
                        if at_start {
                            let t = spec_added_text(old(st).doc.content@, s@, pos as int, range.start as int);
                            if t.len() > 0 {
                                assert(after[start.len() as int] == after.last());
                            }
                        } else {
                            lemma_lead_stays(s@, mode, old(st).doc.content@, pos as int, start.len() as int, mid, after);
                        }
                        assert(spec_lead_text(s@, mode, old(st).doc.content@, pos as int, start.len() as int, after));
                    }
                    proof {
                        if at_start {
                            lw = *st;
                            lemma_chosen_match(s@, m, mode);
                            assert(spec_lead_state(s@, mode, *old(st), pos as int, lw));
                        }
                    }
                    let ghost l = *st;
                    proof {
                        lemma_first_match(s@, pp, range.start as int, mode);
                        lemma_chosen_match(s@, m, mode);
                        let after = spec_flatten(l.doc.content@);
                        let t = spec_added_text(sp.doc.content@, s@, pp, range.start as int);
                        if t.len() > 0 {
                            assert(after[mid.len() as int] == after.last());
                        }
                        assert(spec_lead_state(s@, mode, sp, pp, l));
                    }
                    match m {
                        RuleMatch::Script(x) => {
                            match self.script.on_match(s, x, &mut st.sems) {
                                Ok(script) => {
                                    proof {
                                        assert(spec_lead_state(s@, mode, sp, pp, *st));
                                        assert(spec_trace(s@, mode, sts, ps));
                                        assert(x.whole.start < x.whole.end);
                                    }
                                    return Some((script, x.whole.end));
                                },
                                Err(rep) => {
                                    st.reports.push(rep);
                                    p = x.whole.end;
                                    proof {
                                        reveal(spec_step);
                                        assert(st.reports@.drop_last() =~= l.reports@);
                                        assert(spec_apply_effect(s@, m, l, *st));
                                        assert(spec_step(s@, mode, sp, pp, *st, p as int));
                                        lemma_trace_push(s@, mode, sts, ps, *st, p as int);
                                        sts = sts.push(*st);
                                        ps = ps.push(p as int);
                                    }
                                },
                            }
                        },
                        other => {
                            let ghost before = spec_flatten(st.doc.content@);
                            let ghost rbefore = st.reports@;
                            p = self.apply(s, other, mode, st);
                            proof {
                                reveal(spec_step);
                                assert(spec_step(s@, mode, sp, pp, *st, p as int));
                                lemma_trace_push(s@, mode, sts, ps, *st, p as int);
                                sts = sts.push(*st);
                                ps = ps.push(p as int);
                            }
                            proof {
                                if at_start {
                                    aw = *st;
                                } else if cond {
                                    lemma_elems_stay_trans(spec_flatten(aw.doc.content@), before, spec_flatten(st.doc.content@));
                                }
                                let after = spec_flatten(st.doc.content@);
                                assert forall|k: int| 0 <= k < after.len() && #[trigger] is_text(after[k]) implies (k
                                    < start.len() && after[k] == start[k]) || spec_clean(s@, spec_location(after[k]), mode) by {
                                    assert(k < before.len() && after[k] == before[k]);
                                    assert(is_text(before[k]));
                                }
                                lemma_elems_stay_trans(start, before, after);
                                lemma_lead_stays(s@, mode, old(st).doc.content@, pos as int, start.len() as int, before, after);
                            }
                        },
                    }
                },
            }
        }
        let ghost mid = spec_flatten(st.doc.content@);
        let ghost at_start = p == pos;
        let ghost sp = *st;
        proof {
            if at_start {
                lemma_first_match(s@, pos as int, s@.len() as int, mode);
            }
            lemma_first_match(s@, p as int, s@.len() as int, mode);
            assert(!spec_script_first(s@, pos as int, mode));
        }
        st.push_text(s, p, s.len());
        let ghost l = *st;
        proof {
            let after = spec_flatten(l.doc.content@);
            let t = spec_added_text(sp.doc.content@, s@, p as int, s@.len() as int);
            if t.len() > 0 {
                assert(after[mid.len() as int] == after.last());
            }
            assert(spec_lead_state(s@, mode, sp, p as int, l));
        }
        proof {
            let after = spec_flatten(st.doc.content@);
            assert forall|k: int| 0 <= k < after.len() && #[trigger] is_text(after[k]) implies (k < start.len()
                && after[k] == start[k]) || spec_clean(s@, spec_location(after[k]), mode) by {
                if k < mid.len() && after[k] == mid[k] {
                    assert(is_text(mid[k]));
                }
            }
            lemma_elems_stay_trans(start, mid, after);
            if at_start {
                let t = spec_added_text(old(st).doc.content@, s@, pos as int, s@.len() as int);
                if t.len() > 0 {
                    assert(after[start.len() as int] == after.last());
                }
            } else {
                lemma_lead_stays(s@, mode, old(st).doc.content@, pos as int, start.len() as int, mid, after);
            }
        }
        st.finish();
        proof {
            assert(spec_last_step(s@, mode, sp, p as int, *st));
            assert(spec_trace(s@, mode, sts, ps));
        }
        None
    }

    /// Parses `text` on its own as a single paragraph: its content, with the
    /// semantic tokens and reports of the parse.
    pub fn parse_paragraph(&self, text: &[char]) -> (r: (Result<Vec<Element>, ParagraphError>, Semantics, Vec<Report>))
        requires
            self.wf(),
        ensures
            r.1.wf(),
            r.0 matches Ok(v) ==> texts_clean(text@, v@, ParseMode { paragraph_only: true }),
            exists|sub: ParseState| #[trigger] spec_parses_base(text@, para_mode(), sub) && match r.0 {
                Ok(v) => spec_single_paragraph(sub.doc.content@) == Ok::<Seq<Element>, ParagraphError>(v@),
                Err(e) => spec_single_paragraph(sub.doc.content@) == Err::<Seq<Element>, ParagraphError>(e),
            },
        decreases text@.len(), 6nat,
    {
        let st = self.parse(text, ParseMode { paragraph_only: true });
        proof { lemma_parses_weaken(text@, para_mode(), st); }
        let ParseState { doc, sems, reports, styles: _, layouts: _ } = st;
        let ghost content = doc.content@;
        let r = single_paragraph(doc);
        proof {
            if content.len() == 1 {
                assert(content =~= seq![content[0]]);
                lemma_flatten_one(content[0]);
            }
        }
        (r, sems, reports)
    }

    /// Applies match `m`: the elements it yields go to the document, its
    /// reports to the reports. Result: where parsing goes on.
    #[verifier::spinoff_prover]
    #[verifier::rlimit(80)]
    pub fn apply(&self, s: &[char], m: RuleMatch, mode: ParseMode, st: &mut ParseState) -> (next: usize)
        requires
            self.wf(),
            old(st).wf(),
            spec_match_valid(s@, m),
            spec_match_advances(s@, m),
        ensures
            final(st).wf(),
            spec_match_range(m).start < next <= s@.len(),
            spec_next(s@, m) matches Some(n) ==> next == n,
            m matches RuleMatch::List(x) ==> spec_list_run(s@, x, *old(st), *final(st), next as int),
            m matches RuleMatch::Reference(x) ==> spec_reference_styled(s@, x, *final(st), self.reference.style),
            texts_kept(spec_flatten(old(st).doc.content@), spec_flatten(final(st).doc.content@)),
            elems_stay(spec_flatten(old(st).doc.content@), spec_flatten(final(st).doc.content@)),
            reports_grow(old(st).reports@, final(st).reports@),
            spec_apply_effect(s@, m, *old(st), *final(st)),
        decreases s@.len(), 3nat,
    {
        match m {
            RuleMatch::Paragraph(t) => {
                self.apply_paragraph(s, t, st);
                t.end - 1
            },
            RuleMatch::Script(x) => {
                self.apply_script(s, x, st);
                x.whole.end
            },
            RuleMatch::Raw(x) => {
                self.apply_raw(s, x, st);
                x.whole.end
            },
            RuleMatch::RawKind(x) => {
                self.apply_raw_kind(s, x, st);
                x.whole.end
            },
            RuleMatch::List(x) => self.apply_list(s, x, st),
            RuleMatch::Latex(x) => {
                self.apply_latex(s, x, st);
                x.whole.end
            },
            RuleMatch::Media(x) => self.apply_media(s, x, st),
            RuleMatch::Layout(x) => {
                self.apply_layout(s, x, st);
                x.whole.end
            },
            RuleMatch::Style(t, k) => {
                self.apply_style(s, t, k, st);
                t.end
            },
            RuleMatch::Section(x) => {
                self.apply_section(s, x, st);
                x.whole.end
            },
            RuleMatch::Link(x) => self.apply_link(s, x, st),
            RuleMatch::InternalLink(x) => self.apply_internal_link(s, x, st),
            RuleMatch::LuaBlock(x) => self.apply_lua_block(s, x, st),
            RuleMatch::InlineLua(x) => {
                self.apply_inline_lua(s, x, st);
                x.whole.end
            },
            RuleMatch::Reference(x) => {
                self.apply_reference(s, x, st);
                x.whole.end
            },
        }
    }

    /// A paragraph break: an empty paragraph is opened after it.
    fn apply_paragraph(&self, s: &[char], t: Token, st: &mut ParseState)
        requires
            self.wf(),
            old(st).wf(),
            spec_match_valid(s@, RuleMatch::Paragraph(t)),
        ensures
            final(st).wf(),
            texts_kept(spec_flatten(old(st).doc.content@), spec_flatten(final(st).doc.content@)),
            elems_stay(spec_flatten(old(st).doc.content@), spec_flatten(final(st).doc.content@)),
            reports_grow(old(st).reports@, final(st).reports@),
            spec_apply_effect(s@, RuleMatch::Paragraph(t), *old(st), *final(st)),
    {
        let p = Paragraph { location: Token { start: t.start, end: t.end - 1 }, content: Vec::new() };
        st.push(Element::Paragraph(p));
        proof { assert(st.doc.content@.drop_last() =~= old(st).doc.content@); }
    }

    /// A script: the element, or the report that refuses it.
    fn apply_script(&self, s: &[char], x: ScriptMatch, st: &mut ParseState)
        requires
            self.wf(),
            old(st).wf(),
            spec_match_valid(s@, RuleMatch::Script(x)),
        ensures
            final(st).wf(),
            texts_kept(spec_flatten(old(st).doc.content@), spec_flatten(final(st).doc.content@)),
            elems_stay(spec_flatten(old(st).doc.content@), spec_flatten(final(st).doc.content@)),
            reports_grow(old(st).reports@, final(st).reports@),
            spec_apply_effect(s@, RuleMatch::Script(x), *old(st), *final(st)),
    {
        match self.script.on_match(s, x, &mut st.sems) {
            Ok(sc) => {
                let ghost e = Element::Script(sc);
                st.push(Element::Script(sc));
                proof { lemma_flatten_one(e); }
            },
            Err(rep) => {
                st.reports.push(rep);
                proof { assert(st.reports@.drop_last() =~= old(st).reports@); }
            },
        }
    }

    /// A formula: the element (after the error of an empty one), or the
    /// report that refuses it.
    #[verifier::spinoff_prover]
    #[verifier::rlimit(50)]
    fn apply_latex(&self, s: &[char], x: LatexMatch, st: &mut ParseState)
        requires
            self.wf(),
            old(st).wf(),
            spec_match_valid(s@, RuleMatch::Latex(x)),
        ensures
            final(st).wf(),
            texts_kept(spec_flatten(old(st).doc.content@), spec_flatten(final(st).doc.content@)),
            elems_stay(spec_flatten(old(st).doc.content@), spec_flatten(final(st).doc.content@)),
            reports_grow(old(st).reports@, final(st).reports@),
            spec_apply_effect(s@, RuleMatch::Latex(x), *old(st), *final(st)),
    {
        match self.latex.on_match(s, x, &mut st.sems) {
            Ok((l, w)) => {
                let ghost r0 = st.reports@;
                match w {
                    Some(rep) => {
                        st.reports.push(rep);
                        proof { assert(st.reports@ =~= r0 + spec_empty_tex(x, l.tex@)); }
                    },
                    None => {
                        proof { assert(st.reports@ =~= r0 + spec_empty_tex(x, l.tex@)); }
                    },
                }
                proof { assert(st.doc == old(st).doc && st.styles == old(st).styles); }
                let ghost e = Element::Latex(l);
                st.push(Element::Latex(l));
                proof {
                    lemma_flatten_one(e);
                    assert(spec_flatten(st.doc.content@) =~= spec_flatten(old(st).doc.content@).push(e));
                }
            },
            Err(rep) => {
                st.reports.push(rep);
                proof { assert(st.reports@.drop_last() =~= old(st).reports@); }
            },
        }
    }

    /// A layout marker: the element, with the layout stack moved on, or the
    /// report that refuses it, with the stack unchanged.
    fn apply_layout(&self, s: &[char], x: LayoutMatch, st: &mut ParseState)
        requires
            self.wf(),
            old(st).wf(),
            spec_match_valid(s@, RuleMatch::Layout(x)),
        ensures
            final(st).wf(),
            texts_kept(spec_flatten(old(st).doc.content@), spec_flatten(final(st).doc.content@)),
            elems_stay(spec_flatten(old(st).doc.content@), spec_flatten(final(st).doc.content@)),
            reports_grow(old(st).reports@, final(st).reports@),
            spec_apply_effect(s@, RuleMatch::Layout(x), *old(st), *final(st)),
    {
        let ghost before = stack_view(st.layouts.stack@);
        match self.layout.on_match(s, x, &mut st.layouts, &mut st.sems) {
            Ok(l) => {
                proof { lemma_layout_step_wf(s@, x, before); }
                let ghost e = Element::Layout(l);
                st.push(Element::Layout(l));
                proof { lemma_flatten_one(e); }
            },
            Err(rep) => {
                proof { assert(stack_view(st.layouts.stack@) == before); }
                st.reports.push(rep);
                proof { assert(st.reports@.drop_last() =~= old(st).reports@); }
            },
        }
    }

    /// A Lua block: a script run when the document is processed, or the
    /// report that refuses it. Result: where parsing goes on.
    fn apply_lua_block(&self, s: &[char], x: LuaBlockMatch, st: &mut ParseState) -> (next: usize)
        requires
            self.wf(),
            old(st).wf(),
            spec_match_valid(s@, RuleMatch::LuaBlock(x)),
        ensures
            final(st).wf(),
            x.whole.start < next <= s@.len(),
            next == spec_lua_block_result(s@, x).1,
            texts_kept(spec_flatten(old(st).doc.content@), spec_flatten(final(st).doc.content@)),
            elems_stay(spec_flatten(old(st).doc.content@), spec_flatten(final(st).doc.content@)),
            reports_grow(old(st).reports@, final(st).reports@),
            spec_apply_effect(s@, RuleMatch::LuaBlock(x), *old(st), *final(st)),
    {
        let (r, next) = self.lua_block.on_match(s, x, &mut st.sems);
        match r {
            Ok((kernel, code, _)) => {
                let location = Token { start: x.whole.start, end: next };
                let sc = Script { location, kernel, kind: ScriptKind::Exec, code };
                let ghost e = Element::Script(sc);
                st.push(Element::Script(sc));
                proof { lemma_flatten_one(e); }
            },
            Err(rep) => {
                st.reports.push(rep);
                proof { assert(st.reports@.drop_last() =~= old(st).reports@); }
            },
        }
        next
    }

    /// Inline Lua: a script, or a post-processing step, or the report that
    /// refuses it.
    fn apply_inline_lua(&self, s: &[char], x: InlineLuaMatch, st: &mut ParseState)
        requires
            self.wf(),
            old(st).wf(),
            spec_match_valid(s@, RuleMatch::InlineLua(x)),
        ensures
            final(st).wf(),
            texts_kept(spec_flatten(old(st).doc.content@), spec_flatten(final(st).doc.content@)),
            elems_stay(spec_flatten(old(st).doc.content@), spec_flatten(final(st).doc.content@)),
            reports_grow(old(st).reports@, final(st).reports@),
            spec_apply_effect(s@, RuleMatch::InlineLua(x), *old(st), *final(st)),
    {
        match self.inline_lua.on_match(s, x, &mut st.sems) {
            Ok((kernel, eval_kind, code)) => {
                if x.index == 0 {
                    let kind = match eval_kind {
                        LuaEvalKind::Discard => ScriptKind::Eval,
                        LuaEvalKind::String => ScriptKind::EvalText,
                        LuaEvalKind::StringParse => ScriptKind::EvalParse,
                    };
                    let sc = Script { location: x.whole, kernel, kind, code };
                    let ghost e = Element::Script(sc);
                    st.push(Element::Script(sc));
                    proof { lemma_flatten_one(e); }
                } else {
                    let pp = LuaPostProcess { location: x.whole, kernel, eval_kind, code };
                    let ghost e = Element::LuaPostProcess(pp);
                    st.push(Element::LuaPostProcess(pp));
                    proof { lemma_flatten_one(e); }
                }
            },
            Err(rep) => {
                st.reports.push(rep);
                proof { assert(st.reports@.drop_last() =~= old(st).reports@); }
            },
        }
    }

    /// Raw code: the element, or the report that refuses it.
    fn apply_raw(&self, s: &[char], x: RawMatch, st: &mut ParseState)
        requires
            self.wf(),
            old(st).wf(),
            spec_match_valid(s@, RuleMatch::Raw(x)),
        ensures
            final(st).wf(),
            texts_kept(spec_flatten(old(st).doc.content@), spec_flatten(final(st).doc.content@)),
            elems_stay(spec_flatten(old(st).doc.content@), spec_flatten(final(st).doc.content@)),
            reports_grow(old(st).reports@, final(st).reports@),
            spec_apply_effect(s@, RuleMatch::Raw(x), *old(st), *final(st)),
    {
        match self.raw.empty_warning(s, x) {
            Some(w) => st.reports.push(w),
            None => {},
        }
        let ghost r0 = st.reports@;
        proof { assert(r0 =~= old(st).reports@ + spec_raw_warning(s@, x)); }
        match self.raw.on_match(s, x, &mut st.sems) {
            Ok(raw) => {
                let ghost e = Element::Raw(raw);
                st.push(Element::Raw(raw));
                proof {
                    lemma_flatten_one(e);
                    assert(spec_flatten(st.doc.content@) =~= spec_flatten(old(st).doc.content@).push(e));
                }
            },
            Err(rep) => {
                st.reports.push(rep);
                proof { assert(st.reports@.drop_last() =~= r0); }
            },
        }
    }

    /// Raw code of a given kind: the element, or the report that refuses it.
    fn apply_raw_kind(&self, s: &[char], x: RawKindMatch, st: &mut ParseState)
        requires
            self.wf(),
            old(st).wf(),
            spec_match_valid(s@, RuleMatch::RawKind(x)),
        ensures
            final(st).wf(),
            texts_kept(spec_flatten(old(st).doc.content@), spec_flatten(final(st).doc.content@)),
            elems_stay(spec_flatten(old(st).doc.content@), spec_flatten(final(st).doc.content@)),
            reports_grow(old(st).reports@, final(st).reports@),
            spec_apply_effect(s@, RuleMatch::RawKind(x), *old(st), *final(st)),
    {
        match self.raw.on_kind_match(s, x, &mut st.sems) {
            Ok(raw) => {
                let ghost e = Element::Raw(raw);
                st.push(Element::Raw(raw));
                proof { lemma_flatten_one(e); }
            },
            Err(rep) => {
                st.reports.push(rep);
                proof { assert(st.reports@.drop_last() =~= old(st).reports@); }
            },
        }
    }

    /// A style marker: it toggles the style, and its marker is added.
    fn apply_style(&self, s: &[char], t: Token, k: usize, st: &mut ParseState)
        requires
            self.wf(),
            old(st).wf(),
            spec_match_valid(s@, RuleMatch::Style(t, k)),
        ensures
            final(st).wf(),
            texts_kept(spec_flatten(old(st).doc.content@), spec_flatten(final(st).doc.content@)),
            elems_stay(spec_flatten(old(st).doc.content@), spec_flatten(final(st).doc.content@)),
            reports_grow(old(st).reports@, final(st).reports@),
            spec_apply_effect(s@, RuleMatch::Style(t, k), *old(st), *final(st)),
    {
        let e = self.style.on_match(&mut st.styles, k, t.start, t.end - t.start, &mut st.sems);
        let ghost el = Element::Style(e);
        st.push(Element::Style(e));
        proof { lemma_flatten_one(el); }
    }

    /// A reference: the element, or the report that refuses it.
    #[verifier::spinoff_prover]
    #[verifier::rlimit(40)]
    fn apply_reference(&self, s: &[char], x: ReferenceMatch, st: &mut ParseState)
        requires
            self.wf(),
            old(st).wf(),
            spec_match_valid(s@, RuleMatch::Reference(x)),
        ensures
            final(st).wf(),
            texts_kept(spec_flatten(old(st).doc.content@), spec_flatten(final(st).doc.content@)),
            elems_stay(spec_flatten(old(st).doc.content@), spec_flatten(final(st).doc.content@)),
            reports_grow(old(st).reports@, final(st).reports@),
            spec_apply_effect(s@, RuleMatch::Reference(x), *old(st), *final(st)),
            spec_reference_styled(s@, x, *final(st), self.reference.style),
    {
        match self.reference.on_match(s, x, &mut st.sems) {
            Ok(ReferenceElement::Internal(r)) => {
                let ghost e = Element::InternalReference(r);
                st.push(Element::InternalReference(r));
                proof { lemma_flatten_one(e); }
            },
            Ok(ReferenceElement::External(r)) => {
                let ghost e = Element::ExternalReference(r);
                st.push(Element::ExternalReference(r));
                proof { lemma_flatten_one(e); }
            },
            Err(rep) => {
                st.reports.push(rep);
                proof { assert(st.reports@.drop_last() =~= old(st).reports@); }
            },
        }
    }

    /// A section heading: the section, or the report that refuses it.
    fn apply_section(&self, s: &[char], x: SectionMatch, st: &mut ParseState)
        requires
            self.wf(),
            old(st).wf(),
            spec_match_valid(s@, RuleMatch::Section(x)),
        ensures
            final(st).wf(),
            texts_kept(spec_flatten(old(st).doc.content@), spec_flatten(final(st).doc.content@)),
            elems_stay(spec_flatten(old(st).doc.content@), spec_flatten(final(st).doc.content@)),
            reports_grow(old(st).reports@, final(st).reports@),
            spec_apply_effect(s@, RuleMatch::Section(x), *old(st), *final(st)),
    {
        match self.section.on_match(s, x, &mut st.sems) {
            Ok(sec) => {
                let span = match x.refname {
                    Some(t) => t,
                    None => x.whole,
                };
                st.push_section(sec, span);
            },
            Err(rep) => {
                if rep.code != ReportCode::InvalidSectionDepth {
                    match x.refname {
                        Some(r) => st.report_duplicate(&s[r.start..r.end], r),
                        None => {},
                    }
                }
                let ghost r1 = st.reports@;
                proof { assert(r1 =~= old(st).reports@ + spec_section_dup_warning(s@, x, old(st).doc.content@, rep.code)); }
                st.reports.push(rep);
                proof { assert(st.reports@.drop_last() =~= r1); }
            },
        }
    }


    /// A link: its display is parsed as a paragraph.
    fn apply_link(&self, s: &[char], m: LinkMatch, st: &mut ParseState) -> (next: usize)
        requires
            self.wf(),
            old(st).wf(),
            link_match_wf(s@, m),
        ensures
            final(st).wf(),
            next == m.whole.end,
            texts_kept(spec_flatten(old(st).doc.content@), spec_flatten(final(st).doc.content@)),
            elems_stay(spec_flatten(old(st).doc.content@), spec_flatten(final(st).doc.content@)),
            reports_grow(old(st).reports@, final(st).reports@),
            spec_link_effect(s@, m, *old(st), *final(st)),
        decreases s@.len(), 1nat,
    {
        match self.link.on_match(s, m, &mut st.sems) {
            Err(rep) => {
                st.reports.push(rep);
                proof { assert(st.reports@.drop_last() =~= old(st).reports@); }
            },
            Ok((d, url)) => {
                proof { reveal_strlit("]("); }
                let mid = str_to_chars("](");
                let display = escape_text('\\', mid.as_slice(), s, m.display.start, m.display.end);
                proof {
                    lemma_escape_text_len('\\', mid@, s@.subrange(m.display.start as int, m.display.end as int));
                }
                let map = embed_positions(display.as_slice(), s, m.display.start, m.display.end);
                let (content, sub_sems, sub_reports) = self.parse_paragraph(display.as_slice());
                let ghost sub = choose|x: ParseState| #[trigger] spec_parses_base(display@, para_mode(), x) && match content {
                    Ok(v) => spec_single_paragraph(x.doc.content@) == Ok::<Seq<Element>, ParagraphError>(v@),
                    Err(e) => spec_single_paragraph(x.doc.content@) == Err::<Seq<Element>, ParagraphError>(e),
                };
                st.merge_mapped(&sub_sems, &sub_reports, &map);
                match content {
                    Ok(elems) => {
                        let ghost before = spec_flatten(st.doc.content@);
                        let l = Link { location: m.whole, display: elems, url };
                        let ghost e = Element::Link(l);
                        st.push(Element::Link(l));
                        proof {
                            lemma_flatten_one(e);
                            assert(spec_flatten(st.doc.content@) =~= before.push(e));
                        }
                    },
                    Err(_) => {
                        st.reports.push(Report { kind: ReportKind::Error, code: ReportCode::InvalidLinkDisplay, span: m.display });
                        proof { assert(spec_parses_base(display@, para_mode(), sub)); }
                    },
                }
            },
        }
        m.whole.end
    }

    /// An internal link: its display is parsed as a paragraph; without one,
    /// the link shows the reference's name.
    fn apply_internal_link(&self, s: &[char], m: InternalLinkMatch, st: &mut ParseState) -> (next: usize)
        requires
            self.wf(),
            old(st).wf(),
            internal_link_match_wf(s@, m),
        ensures
            final(st).wf(),
            next == m.whole.end,
            texts_kept(spec_flatten(old(st).doc.content@), spec_flatten(final(st).doc.content@)),
            elems_stay(spec_flatten(old(st).doc.content@), spec_flatten(final(st).doc.content@)),
            reports_grow(old(st).reports@, final(st).reports@),
            spec_internal_link_effect(s@, m, *old(st), *final(st)),
        decreases s@.len(), 1nat,
    {
        match self.internal_link.on_match(s, m, &mut st.sems) {
            Err(rep) => {
                st.reports.push(rep);
                proof { assert(st.reports@.drop_last() =~= old(st).reports@); }
            },
            Ok((refname, None)) => {
                let shown = Text::new(m.whole, refname.to_text());
                let mut display: Vec<Element> = Vec::new();
                display.push(Element::Text(shown));
                let l = InternalLink { location: m.whole, refname, display };
                let ghost e = Element::InternalLink(l);
                st.push(Element::InternalLink(l));
                proof { lemma_flatten_one(e); }
            },
            Ok((refname, Some(d))) => {
                proof { reveal_strlit("]"); }
                let close = str_to_chars("]");
                let display = escape_text('\\', close.as_slice(), s, d.start, d.end);
                proof {
                    lemma_escape_text_len('\\', close@, s@.subrange(d.start as int, d.end as int));
                }
                let map = embed_positions(display.as_slice(), s, d.start, d.end);
                let (content, sub_sems, sub_reports) = self.parse_paragraph(display.as_slice());
                let ghost sub = choose|x: ParseState| #[trigger] spec_parses_base(display@, para_mode(), x) && match content {
                    Ok(v) => spec_single_paragraph(x.doc.content@) == Ok::<Seq<Element>, ParagraphError>(v@),
                    Err(e) => spec_single_paragraph(x.doc.content@) == Err::<Seq<Element>, ParagraphError>(e),
                };
                st.merge_mapped(&sub_sems, &sub_reports, &map);
                match content {
                    Ok(elems) => {
                        let ghost before = spec_flatten(st.doc.content@);
                        let l = InternalLink { location: m.whole, refname, display: elems };
                        let ghost e = Element::InternalLink(l);
                        st.push(Element::InternalLink(l));
                        proof {
                            lemma_flatten_one(e);
                            assert(spec_flatten(st.doc.content@) =~= before.push(e));
                        }
                    },
                    Err(_) => {
                        st.reports.push(Report { kind: ReportKind::Error, code: ReportCode::InvalidInternalLinkDisplay, span: d });
                        proof { assert(spec_parses_base(display@, para_mode(), sub)); }
                    },
                }
            },
        }
        m.whole.end
    }

    /// A medium: it joins the group of media that ends the document, or
    /// starts one; its description is parsed as a paragraph.
    fn apply_media(&self, s: &[char], m: MediaMatch, st: &mut ParseState) -> (next: usize)
        requires
            self.wf(),
            old(st).wf(),
            media_match_wf(s@, m),
        ensures
            final(st).wf(),
            next == m.whole.end,
            texts_kept(spec_flatten(old(st).doc.content@), spec_flatten(final(st).doc.content@)),
            elems_stay(spec_flatten(old(st).doc.content@), spec_flatten(final(st).doc.content@)),
            reports_grow(old(st).reports@, final(st).reports@),
            spec_media_effect(s@, m, *old(st), *final(st)),
        decreases s@.len(), 1nat,
    {
        let parts = match self.media.on_match(s, m) {
            Err(rep) => {
                st.reports.push(rep);
                proof { assert(st.reports@.drop_last() =~= old(st).reports@); }
                return m.whole.end;
            },
            Ok(p) => p,
        };
        let ghost v = (parts.reference@, parts.uri@, parts.media_type, opt_view(parts.width), opt_view(parts.caption), parts.description);
        assert(spec_media_result(s@, m) == Ok::<(Seq<char>, Seq<char>, MediaType, Option<Seq<char>>, Option<Seq<char>>, Option<Token>), ReportCode>(v));
        let ghost mut desc: Option<Seq<Element>> = None;
        let ghost mut sub: ParseState = *st;
        let description = match parts.description {
            None => None,
            Some(d) => {
                let text = slice_to_vec(s, d.start, d.end);
                let (content, sub_sems, sub_reports) = self.parse_paragraph(text.as_slice());
                proof {
                    sub = choose|x: ParseState| #[trigger] spec_parses_base(text@, para_mode(), x) && match content {
                        Ok(v) => spec_single_paragraph(x.doc.content@) == Ok::<Seq<Element>, ParagraphError>(v@),
                        Err(e) => spec_single_paragraph(x.doc.content@) == Err::<Seq<Element>, ParagraphError>(e),
                    };
                }
                st.merge(&sub_sems, &sub_reports, d.start);
                match content {
                    Ok(elems) => {
                        proof { desc = Some(elems@); }
                        Some(elems)
                    },
                    Err(_) => {
                        st.reports.push(Report { kind: ReportKind::Error, code: ReportCode::InvalidMediaDescription, span: d });
                        proof {
                            assert(spec_parses_base(s@.subrange(d.start as int, d.end as int), para_mode(), sub));
                        }
                        return m.whole.end;
                    },
                }
            },
        };
        assert(st.doc.content@ == old(st).doc.content@ && st.styles == old(st).styles);
        assert(v.5 is None ==> st.reports@ == old(st).reports@);
        let medium = Medium {
            location: m.whole,
            reference: parts.reference,
            uri: parts.uri,
            media_type: parts.media_type,
            width: parts.width,
            caption: parts.caption,
            description,
        };
        let n = st.doc.content.len();
        let last_is_media = n > 0 && match &st.doc.content[n - 1] {
            Element::Media(_) => true,
            _ => false,
        };
        let ghost before = st.doc.content@;
        if last_is_media {
            match st.doc.content.pop() {
                Some(Element::Media(mut g)) => {
                    let ghost g0 = g;
                    g.add_media(medium);
                    st.doc.content.push(Element::Media(g));
                    proof {
                        assert(g.media@.drop_last() =~= g0.media@);
                        assert(st.doc.content@.drop_last() =~= before.drop_last());
                        assert(spec_medium_is(g.media@.last(), v, m.whole, desc));
                        assert(spec_medium_added(*old(st), *st, v, m.whole, desc));
                        let dl = before.drop_last();
                        assert(dl.push(Element::Media(g0)) =~= before);
                        assert(st.doc.content@ =~= dl.push(Element::Media(g)));
                        crate::document::lemma_flatten_push(dl, Element::Media(g0));
                        crate::document::lemma_flatten_push(dl, Element::Media(g));
                        let fa = spec_flatten(before);
                        let fb = spec_flatten(st.doc.content@);
                        assert(fa == spec_flatten(dl).push(Element::Media(g0)));
                        assert(fb == spec_flatten(dl).push(Element::Media(g)));
                        assert forall|k: int| 0 <= k < fb.len() && #[trigger] is_text(fb[k]) implies k < fa.len() && fb[k] == fa[k] by {
                            if k < fb.len() - 1 {
                                assert(fb[k] == spec_flatten(dl)[k]);
                                assert(fa[k] == spec_flatten(dl)[k]);
                            }
                        }
                        assert forall|k: int| 0 <= k < fa.len() && !(#[trigger] fa[k] is Media) implies fb[k] == fa[k] by {
                            if k < fa.len() - 1 {
                                assert(fb[k] == spec_flatten(dl)[k]);
                                assert(fa[k] == spec_flatten(dl)[k]);
                            }
                        }
                    }
                    proof {
                        assert forall|i: int| 0 <= i < st.doc.content@.len() implies {
                            &&& !spec_fits_paragraph(#[trigger] st.doc.content@[i])
                            &&& (st.doc.content@[i] matches Element::Paragraph(p) ==> forall|j: int|
                                0 <= j < p.content@.len() ==> spec_kind(#[trigger] p.content@[j]) != ElemKind::Block)
                        } by {
                            if i < n - 1 {
                                assert(st.doc.content@[i] == before[i]);
                            }
                        }
                    }
                },
                _ => {},
            }
        } else {
            let mut media: Vec<Medium> = Vec::new();
            media.push(medium);
            let ghost grp = Element::Media(MediaGroup { location: m.whole, media });
            proof { assert(spec_medium_is(media@[0], v, m.whole, desc)); }
            st.push(Element::Media(MediaGroup { location: m.whole, media }));
            proof {
                lemma_flatten_one(grp);
                assert(spec_flatten(st.doc.content@) =~= spec_flatten(old(st).doc.content@).push(grp));
                assert(spec_last_elem(*st) == grp);
                assert(!(old(st).doc.content@.len() > 0 && old(st).doc.content@.last() is Media));
                assert(spec_medium_added(*old(st), *st, v, m.whole, desc));
            }
        }
        m.whole.end
    }

    /// A list: its consecutive entries, with the markers that open and close
    /// the (nested) lists around them.
    fn apply_list(&self, s: &[char], first: EntryMatch, st: &mut ParseState) -> (next: usize)
        requires
            self.wf(),
            old(st).wf(),
            entry_match_wf(s@, first),
            spec_entry_at(s@, first.whole.start as int) == Some(first),
        ensures
            final(st).wf(),
            first.whole.start < next <= s@.len(),
            texts_kept(spec_flatten(old(st).doc.content@), spec_flatten(final(st).doc.content@)),
            elems_stay(spec_flatten(old(st).doc.content@), spec_flatten(final(st).doc.content@)),
            reports_grow(old(st).reports@, final(st).reports@),
            spec_list_effect(s@, first, *old(st), *final(st)),
            spec_list_run(s@, first, *old(st), *final(st), next as int),
        decreases s@.len(), 1nat,
    {
        let mut m = first;
        let mut end: usize = first.whole.start;
        let ghost start = spec_flatten(st.doc.content@);
        let ghost mut fresh = true;
        let ghost mut ga: ParseState = *st;
        let ghost mut gc: ParseState = *st;
        loop
            invariant_except_break
                fresh ==> m == first && *st == *old(st),
                forall|b: ParseState, nx: int| spec_list_run(s@, m, *st, b, nx) ==> #[trigger] spec_list_run(s@, first, *old(st), b, nx),
            invariant
                self.wf(),
                st.wf(),
                start == spec_flatten(old(st).doc.content@),
                texts_kept(start, spec_flatten(st.doc.content@)),
                elems_stay(start, spec_flatten(st.doc.content@)),
                reports_grow(old(st).reports@, st.reports@),
                list_added(start, spec_flatten(st.doc.content@)),
                !fresh ==> spec_entry_props(s@, first, spec_prev_bullet(*old(st))) is Ok,
                entry_match_wf(s@, m),
                first.whole.start <= m.whole.start,
                m.whole.start < m.whole.end <= s@.len(),
            ensures
                first.whole.start < end <= s@.len(),
                list_added(start, spec_flatten(st.doc.content@)),
                spec_entry_props(s@, first, spec_prev_bullet(*old(st))) is Ok,
                *st == gc,
                spec_list_entry(s@, m, ga, gc),
                end == spec_entry_end(s@, m.whole.end as int),
                spec_entry_at(s@, end as int) is None,
                m.whole.start < m.whole.end <= s@.len(),
                spec_entry_props(s@, m, spec_prev_bullet(ga)) is Ok,
                forall|b: ParseState, nx: int| spec_list_run(s@, m, ga, b, nx) ==> #[trigger] spec_list_run(s@, first, *old(st), b, nx),
            decreases s@.len() - m.whole.start,
        {
            let ghost a = *st;
            let ghost before = spec_flatten(st.doc.content@);
            match self.list_entry(s, m, st) {
                None => {
                    proof {
                        assert(spec_list_run(s@, m, a, *st, m.whole.end as int));
                    }
                    return m.whole.end;
                },
                Some(e) => {
                    end = e;
                },
            }
            proof {
                lemma_elems_stay_trans(start, before, spec_flatten(st.doc.content@));
                lemma_list_added_trans(start, before, spec_flatten(st.doc.content@));
                fresh = false;
                ga = a;
                gc = *st;
            }
            match self.list.entry_at(s, end) {
                Some(next) => {
                    proof {
                        let c = *st;
                        assert forall|b: ParseState, nx: int| spec_list_run(s@, next, c, b, nx) implies #[trigger] spec_list_run(
                            s@,
                            first,
                            *old(st),
                            b,
                            nx,
                        ) by {
                            assert(spec_list_entry(s@, m, a, c));
                            assert(spec_list_run(s@, m, a, b, nx));
                        }
                    }
                    m = next;
                },
                None => {
                    break;
                },
            }
        }
        let ghost before = spec_flatten(st.doc.content@);
        self.close_list(st, end);
        proof {
            lemma_elems_stay_trans(start, before, spec_flatten(st.doc.content@));
            lemma_list_added_trans(start, before, spec_flatten(st.doc.content@));
            assert(spec_list_run(s@, m, ga, *st, end as int));
        }
        end
    }

    /// One entry of a list: the markers that take the open levels to the
    /// entry's, then the entry (see `spec_list_entry`). Result: where the
    /// entry ends; `None` when its properties are refused (then reported).
    fn list_entry(&self, s: &[char], m: EntryMatch, st: &mut ParseState) -> (r: Option<usize>)
        requires
            self.wf(),
            old(st).wf(),
            entry_match_wf(s@, m),
            m.whole.start < m.whole.end <= s@.len(),
        ensures
            final(st).wf(),
            texts_kept(spec_flatten(old(st).doc.content@), spec_flatten(final(st).doc.content@)),
            elems_stay(spec_flatten(old(st).doc.content@), spec_flatten(final(st).doc.content@)),
            reports_grow(old(st).reports@, final(st).reports@),
            list_added(spec_flatten(old(st).doc.content@), spec_flatten(final(st).doc.content@)),
            match r {
                None => spec_entry_props(s@, m, spec_prev_bullet(*old(st))) matches Err(c) && spec_refused(*old(st), *final(st), c),
                Some(end) => spec_list_entry(s@, m, *old(st), *final(st)) && end == spec_entry_end(s@, m.whole.end as int)
                    && m.whole.end <= end <= s@.len(),
            },
        decreases s@.len(), 0nat,
    {
        let ghost a = *st;
        let ghost start = spec_flatten(st.doc.content@);
        let prev = st.last_entry();
        let (prev_numbering, prev_bullet) = match prev {
            Some((n, b)) => (Some(n), b),
            None => (None, None),
        };
        proof {
            assert(match prev_bullet {
                Some(p) => Some(p@),
                None => None::<Seq<char>>,
            } == spec_prev_bullet(a));
            assert(match prev_numbering {
                Some(v) => Some(v@),
                None => None::<Seq<(bool, usize)>>,
            } == spec_prev_numbering(a));
        }
        let (offset, bullet) = match self.list.entry_props(s, m, prev_bullet.as_ref(), &mut st.sems) {
            Err(rep) => {
                let ghost r0 = st.reports@;
                st.reports.push(rep);
                proof { assert(st.reports@.drop_last() =~= r0); }
                return None;
            },
            Ok(x) => x,
        };
        let depth = parse_depth(&s[m.bullets.start..m.bullets.end], prev_numbering.as_ref(), offset);
        let entry_start = m.content.start;
        let end = self.list.entry_end(s, m.whole.end);
        let text = slice_to_vec(s, entry_start, end);
        let (content, sub_sems, sub_reports) = self.parse_paragraph(text.as_slice());
        let ghost sub = choose|x: ParseState| #[trigger] spec_parses_base(text@, para_mode(), x) && match content {
            Ok(v) => spec_single_paragraph(x.doc.content@) == Ok::<Seq<Element>, ParagraphError>(v@),
            Err(e) => spec_single_paragraph(x.doc.content@) == Err::<Seq<Element>, ParagraphError>(e),
        };
        st.merge(&sub_sems, &sub_reports, entry_start);
        let location = Token { start: entry_start, end };
        let content = match content {
            Ok(elems) => elems,
            Err(_) => {
                st.reports.push(Report { kind: ReportKind::Warning, code: ReportCode::InvalidListEntry, span: location });
                Vec::new()
            },
        };
        proof {
            assert(content@ == match spec_single_paragraph(sub.doc.content@) {
                Ok(v) => v,
                Err(_) => Seq::<Element>::empty(),
            });
        }
        let current = match prev_numbering {
            Some(n) => n,
            None => Vec::new(),
        };
        proof { assert(current@ == spec_open_levels(a)); }
        let markers = push_markers(&current, &depth);
        let ghost fa = spec_flatten(st.doc.content@);
        proof {
            assert(fa == start);
            assert(fa.subrange(0, fa.len() as int) =~= fa);
            assert(markers_added(fa, fa, markers@.subrange(0, 0), location));
        }
        let mut i: usize = 0;
        while i < markers.len()
            invariant
                0 <= i <= markers@.len(),
                st.wf(),
                fa == start,
                texts_kept(start, spec_flatten(st.doc.content@)),
                elems_stay(start, spec_flatten(st.doc.content@)),
                list_added(start, spec_flatten(st.doc.content@)),
                reports_grow(old(st).reports@, st.reports@),
                markers_added(fa, spec_flatten(st.doc.content@), markers@.subrange(0, i as int), location),
            decreases markers@.len() - i,
        {
            let (kind, numbered) = markers[i];
            let ghost mid = spec_flatten(st.doc.content@);
            let mk = ListMarker { location, numbered, kind };
            st.push(Element::ListMarker(mk));
            proof {
                lemma_flatten_one(Element::ListMarker(mk));
                assert(spec_flatten(st.doc.content@) =~= mid.push(Element::ListMarker(mk)));
                lemma_elems_stay_trans(start, mid, spec_flatten(st.doc.content@));
                lemma_list_added_push(start, mid, Element::ListMarker(mk));
                lemma_markers_added_push(fa, mid, markers@.subrange(0, i as int), location, mk);
                assert(markers@.subrange(0, i as int).push((mk.kind, mk.numbered)) =~= markers@.subrange(0, i + 1));
            }
            i += 1;
        }
        proof { assert(markers@.subrange(0, markers@.len() as int) =~= markers@); }
        let ghost mid = spec_flatten(st.doc.content@);
        let entry = ListEntry { location, numbering: depth, content, bullet };
        let ghost ee = Element::ListEntry(entry);
        st.push(Element::ListEntry(entry));
        proof {
            lemma_flatten_one(ee);
            assert(spec_flatten(st.doc.content@) =~= mid.push(ee));
            assert(spec_flatten(st.doc.content@).drop_last() =~= mid);
            lemma_elems_stay_trans(start, mid, spec_flatten(st.doc.content@));
            lemma_list_added_push(start, mid, ee);
            assert(spec_parses_base(s@.subrange(m.content.start as int, end as int), para_mode(), sub));
            assert(spec_list_entry(s@, m, a, *st));
        }
        Some(end)
    }

    /// Closes the levels open in the state at the end `end` of a list: the
    /// markers that take them back to none, over `end`.
    fn close_list(&self, st: &mut ParseState, end: usize)
        requires
            old(st).wf(),
        ensures
            final(st).wf(),
            texts_kept(spec_flatten(old(st).doc.content@), spec_flatten(final(st).doc.content@)),
            elems_stay(spec_flatten(old(st).doc.content@), spec_flatten(final(st).doc.content@)),
            reports_grow(old(st).reports@, final(st).reports@),
            list_added(spec_flatten(old(st).doc.content@), spec_flatten(final(st).doc.content@)),
            markers_added(
                spec_flatten(old(st).doc.content@),
                spec_flatten(final(st).doc.content@),
                spec_markers(flags(spec_open_levels(*old(st))), flags(Seq::<(bool, usize)>::empty())),
                Token { start: end, end },
            ),
    {
        let ghost a = *st;
        let current = match st.last_entry() {
            Some((n, _)) => n,
            None => Vec::new(),
        };
        proof { assert(current@ == spec_open_levels(a)); }
        let none: Vec<(bool, usize)> = Vec::new();
        let markers = push_markers(&current, &none);
        proof { assert(none@ =~= Seq::<(bool, usize)>::empty()); }
        let location = Token { start: end, end };
        let ghost fa = spec_flatten(st.doc.content@);
        proof {
            assert(fa.subrange(0, fa.len() as int) =~= fa);
            assert(markers_added(fa, fa, markers@.subrange(0, 0), location));
        }
        let mut i: usize = 0;
        while i < markers.len()
            invariant
                0 <= i <= markers@.len(),
                st.wf(),
                fa == spec_flatten(old(st).doc.content@),
                texts_kept(fa, spec_flatten(st.doc.content@)),
                elems_stay(fa, spec_flatten(st.doc.content@)),
                list_added(fa, spec_flatten(st.doc.content@)),
                reports_grow(old(st).reports@, st.reports@),
                markers_added(fa, spec_flatten(st.doc.content@), markers@.subrange(0, i as int), location),
            decreases markers@.len() - i,
        {
            let (kind, numbered) = markers[i];
            let ghost mid = spec_flatten(st.doc.content@);
            let mk = ListMarker { location, numbered, kind };
            st.push(Element::ListMarker(mk));
            proof {
                lemma_flatten_one(Element::ListMarker(mk));
                assert(spec_flatten(st.doc.content@) =~= mid.push(Element::ListMarker(mk)));
                lemma_elems_stay_trans(fa, mid, spec_flatten(st.doc.content@));
                lemma_list_added_push(fa, mid, Element::ListMarker(mk));
                lemma_markers_added_push(fa, mid, markers@.subrange(0, i as int), location, mk);
                assert(markers@.subrange(0, i as int).push((mk.kind, mk.numbered)) =~= markers@.subrange(0, i + 1));
            }
            i += 1;
        }
        proof { assert(markers@.subrange(0, markers@.len() as int) =~= markers@); }
    }
}

/// Parses the NML text `src`: the document with the reports of the rules,
/// and the semantic tokens of the text in the LSP encoding.
pub fn parse_document(src: &str) -> (r: (ParseState, Vec<LspToken>))
    requires
        src@.len() <= usize::MAX / 2,
    ensures
        r.0.wf(),
        texts_clean(src@, spec_flatten(r.0.doc.content@), ParseMode { paragraph_only: false }),
        r.1@ == spec_encode(spec_all_pieces(src@, r.0.sems.tokens@)),
        spec_lead_text(src@, ParseMode { paragraph_only: false }, Seq::empty(), 0, 0, spec_flatten(r.0.doc.content@)),
        exists|o: ParseState| #[trigger] spec_fresh(o) && spec_first_step(src@, ParseMode { paragraph_only: false }, o, 0, r.0),
        exists|sts: Seq<ParseState>, ps: Seq<int>| #[trigger] spec_trace(src@, ParseMode { paragraph_only: false }, sts, ps)
            && spec_fresh(sts[0]) && ps[0] == 0
            && spec_last_step(src@, ParseMode { paragraph_only: false }, sts.last(), ps.last(), r.0),
        spec_no_match_from(src@, 0, ParseMode { paragraph_only: false }) ==> {
            &&& r.0.reports@.len() == 0
            &&& r.1@.len() == 0
            &&& spec_flatten(r.0.doc.content@).len() == if spec_added_text(Seq::empty(), src@, 0, src@.len() as int).len() > 0 {
                1int
            } else {
                0int
            }
        },
{
    let s = str_to_chars(src);
    let parser = Parser::new();
    let st = parser.parse(s.as_slice(), ParseMode { paragraph_only: false });
    let tokens = lsp_tokens(s.as_slice(), &st.sems);
    (st, tokens)
}

} // verus!
