//! Raw code: text given to the output as it is, written `{?[kind=..] code?}`
//! or `{<kind code>}`.
use vstd::prelude::*;

use crate::chars::{is_inline_space, is_word, spec_is_inline_space, spec_is_word};
use crate::document::{spec_report_kind, ElemKind, Report, ReportCode, ReportKind, Token};
use crate::interop::{chars_to_string, str_to_chars};
use crate::properties::{
    entries_view, lookup, parse_properties, schema_view, spec_lookup, spec_parse_properties,
    PropertySpec,
};
use crate::scan::{esc_until, lemma_esc_until_range, spec_esc_until};
use crate::semantics::{spec_add_token, SemKind, SemToken, Semantics};
use crate::text::{escape_text, spec_escape_text, spec_starts_at};

verus! {

/// Raw code.
pub struct Raw {
    pub location: Token,
    pub kind: ElemKind,
    pub content: String,
}

impl Raw {
    /// The output of raw code is its content.
    pub fn compile(&self) -> (r: String)
        ensures
            r@ == self.content@,
    {
        self.content.clone()
    }
}

/// The layout kind named `s`.
pub open spec fn spec_elem_kind_from(s: Seq<char>) -> Option<ElemKind> {
    if s == "invisible"@ {
        Some(ElemKind::Invisible)
    } else if s == "special"@ {
        Some(ElemKind::Special)
    } else if s == "inline"@ {
        Some(ElemKind::Inline)
    } else if s == "block"@ {
        Some(ElemKind::Block)
    } else {
        None
    }
}

/// The layout kind named `s` (see `spec_elem_kind_from`).
pub fn elem_kind_from(s: &[char]) -> (r: Option<ElemKind>)
    ensures
        r == spec_elem_kind_from(s@),
{
    if crate::text::eq_str(s, "invisible") {
        Some(ElemKind::Invisible)
    } else if crate::text::eq_str(s, "special") {
        Some(ElemKind::Special)
    } else if crate::text::eq_str(s, "inline") {
        Some(ElemKind::Inline)
    } else if crate::text::eq_str(s, "block") {
        Some(ElemKind::Block)
    } else {
        None
    }
}

/// The ranges of raw code written `{?[properties] content?}`.
#[derive(Clone, Copy, PartialEq, Eq, Debug, Structural)]
pub struct RawMatch {
    pub whole: Token,
    pub props: Option<Token>,
    pub content: Option<Token>,
}

/// The match of `\{\?(?:\[((?:\\.|[^\[\]\\])*?)\])?(?:((?:\\.|[^\\])*?)(\?\}))?`
/// at `p`: `{?`, optional properties between brackets, then, if `?}` closes
/// it, the content.
pub open spec fn spec_raw_at(s: Seq<char>, p: int) -> Option<RawMatch> {
    if !spec_starts_at(s, p, "{?"@) {
        None
    } else {
        let i = p + 2;
        let (props, j) = if i < s.len() && s[i] == '[' {
            match spec_esc_until(s, i + 1, "]"@, true) {
                Some(k) => (Some(Token { start: (i + 1) as usize, end: k as usize }), k + 1),
                None => (None::<Token>, i),
            }
        } else {
            (None::<Token>, i)
        };
        match spec_esc_until(s, j, "?}"@, false) {
            Some(k) => Some(RawMatch {
                whole: Token { start: p as usize, end: (k + 2) as usize },
                props,
                content: Some(Token { start: j as usize, end: k as usize }),
            }),
            None => Some(RawMatch { whole: Token { start: p as usize, end: j as usize }, props, content: None }),
        }
    }
}

/// The ranges of raw code written `{<kind content>}`.
#[derive(Clone, Copy, PartialEq, Eq, Debug, Structural)]
pub struct RawKindMatch {
    pub whole: Token,
    pub kind: Token,
    pub content: Option<Token>,
}

/// End of the run of word characters from `i`.
pub open spec fn spec_word_end(s: Seq<char>, i: int) -> int
    decreases s.len() - i,
{
    if 0 <= i < s.len() && spec_is_word(s[i]) {
        spec_word_end(s, i + 1)
    } else {
        i
    }
}

/// The match of `\{<(\w*)(?:(?:[^\S\r\n])((?:\\.|[^\\])*?))?>\}` at `p`:
/// `{<`, a kind word, then either a space and the content up to `>}`, or
/// `>}` right away.
pub open spec fn spec_raw_kind_at(s: Seq<char>, p: int) -> Option<RawKindMatch> {
    if !spec_starts_at(s, p, "{<"@) {
        None
    } else {
        let w = spec_word_end(s, p + 2);
        let kind = Token { start: (p + 2) as usize, end: w as usize };
        if w < s.len() && spec_is_inline_space(s[w]) {
            match spec_esc_until(s, w + 1, ">}"@, false) {
                Some(k) => Some(RawKindMatch {
                    whole: Token { start: p as usize, end: (k + 2) as usize },
                    kind,
                    content: Some(Token { start: (w + 1) as usize, end: k as usize }),
                }),
                None => None,
            }
        } else if spec_starts_at(s, w, ">}"@) {
            Some(RawKindMatch { whole: Token { start: p as usize, end: (w + 2) as usize }, kind, content: None })
        } else {
            None
        }
    }
}

proof fn lemma_word_end(s: Seq<char>, i: int)
    requires
        0 <= i <= s.len(),
    ensures
        i <= spec_word_end(s, i) <= s.len(),
    decreases s.len() - i,
{
    if i < s.len() && spec_is_word(s[i]) {
        lemma_word_end(s, i + 1);
    }
}

/// The rule for raw code.
pub struct RawRule {
    /// The properties of `{?[...] ...?}`: `kind`, `inline` by default.
    pub properties: Vec<PropertySpec>,
}

/// Properties of raw code.
pub open spec fn raw_schema() -> Seq<(Seq<char>, bool, Option<Seq<char>>)> {
    seq![("kind"@, true, Some("inline"@))]
}

/// What raw code `m` yields: its kind and content, or the error that refuses it.
pub open spec fn spec_raw_result(s: Seq<char>, m: RawMatch) -> Result<(ElemKind, Seq<char>), ReportCode> {
    match m.content {
        None => Err(ReportCode::UnterminatedRaw),
        Some(c) => {
            let content = spec_escape_text('\\', "?}"@, s.subrange(c.start as int, c.end as int));
            let props = match m.props {
                None => Seq::<char>::empty(),
                Some(p) => spec_escape_text('\\', "]"@, s.subrange(p.start as int, p.end as int)),
            };
            match spec_parse_properties(props, raw_schema()) {
                Err(_) => Err(ReportCode::InvalidRawProperties),
                Ok(entries) => match spec_lookup(entries, "kind"@) {
                    None => Err(ReportCode::InvalidRawProperties),
                    Some(k) => match spec_elem_kind_from(k) {
                        None => Err(ReportCode::InvalidRawKind),
                        Some(kind) => Ok((kind, content)),
                    },
                },
            }
        },
    }
}

/// The tokens `t` with those of raw code `m` added: its delimiters, the
/// brackets and text of its properties, and its content.
pub open spec fn spec_raw_tokens(t: Seq<SemToken>, m: RawMatch) -> Seq<SemToken> {
    let c = m.content->0;
    let t1 = spec_add_token(t, m.whole.start as int, m.whole.start + 2, SemKind::RawSep);
    let t2 = match m.props {
        Some(p) => {
            let a = spec_add_token(t1, p.start - 1, p.start as int, SemKind::RawPropsSep);
            let b = spec_add_token(a, p.start as int, p.end as int, SemKind::RawProps);
            spec_add_token(b, p.end as int, p.end + 1, SemKind::RawPropsSep)
        },
        None => t1,
    };
    let t3 = spec_add_token(t2, c.start as int, c.end as int, SemKind::RawContent);
    spec_add_token(t3, m.whole.end - 2, m.whole.end as int, SemKind::RawSep)
}

/// The warning that raw code `m` gives when its content, once trimmed and
/// unescaped, is empty: over the content's range.
pub open spec fn spec_raw_warning(s: Seq<char>, m: RawMatch) -> Seq<Report> {
    match m.content {
        Some(c) => if spec_escape_text('\\', "?}"@, s.subrange(c.start as int, c.end as int)).len() == 0 {
            seq![Report { kind: ReportKind::Warning, code: ReportCode::EmptyRaw, span: c }]
        } else {
            Seq::<Report>::empty()
        },
        None => Seq::<Report>::empty(),
    }
}

/// What raw code `m` written `{<kind content>}` yields.
pub open spec fn spec_raw_kind_result(s: Seq<char>, m: RawKindMatch) -> Result<(ElemKind, Seq<char>), ReportCode> {
    let k = s.subrange(m.kind.start as int, m.kind.end as int);
    if k == "inline"@ {
        match m.content {
            None => Err(ReportCode::RawExpectsContent),
            Some(c) => Ok((ElemKind::Inline, s.subrange(c.start as int, c.end as int))),
        }
    } else if k == "block"@ {
        match m.content {
            None => Err(ReportCode::RawExpectsContent),
            Some(c) => Ok((ElemKind::Block, s.subrange(c.start as int, c.end as int))),
        }
    } else if k == "invisible"@ {
        match m.content {
            None => Err(ReportCode::RawExpectsContent),
            Some(c) => Ok((ElemKind::Invisible, s.subrange(c.start as int, c.end as int))),
        }
    } else {
        Err(ReportCode::InvalidRawKind)
    }
}

pub open spec fn raw_match_wf(s: Seq<char>, m: RawMatch) -> bool {
    &&& m.whole.start + 2 <= m.whole.end <= s.len()
    &&& m.props matches Some(p) ==> m.whole.start + 3 <= p.start <= p.end && p.end + 1 <= m.whole.end
    &&& m.content matches Some(c) ==> m.whole.start + 2 <= c.start <= c.end && c.end + 2 == m.whole.end
}

pub open spec fn raw_kind_match_wf(s: Seq<char>, m: RawKindMatch) -> bool {
    &&& m.whole.start + 2 == m.kind.start <= m.kind.end && m.kind.end + 2 <= m.whole.end <= s.len()
    &&& m.content matches Some(c) ==> m.kind.end < c.start <= c.end && c.end + 2 == m.whole.end
}

impl RawRule {
    pub fn new() -> (r: RawRule)
        ensures
            schema_view(r.properties@) == raw_schema(),
    {
        let mut properties: Vec<PropertySpec> = Vec::new();
        properties.push(PropertySpec { name: str_to_chars("kind"), required: true, default: Some(str_to_chars("inline")) });
        let r = RawRule { properties };
        assert(schema_view(r.properties@) =~= raw_schema());
        r
    }

    /// The match of the `{?...?}` pattern at `p` (see `spec_raw_at`).
    pub fn raw_at(&self, s: &[char], p: usize) -> (r: Option<RawMatch>)
        ensures
            r == spec_raw_at(s@, p as int),
            r matches Some(m) ==> raw_match_wf(s@, m) && m.whole.start == p,
    {
        proof { reveal_strlit("{?"); reveal_strlit("?}"); reveal_strlit("]"); }
        let open = str_to_chars("{?");
        if p >= s.len() || s.len() - p < 2 || !crate::text::starts_at(s, p, open.as_slice()) {
            return None;
        }
        let i = p + 2;
        let mut props: Option<Token> = None;
        let mut j = i;
        if i < s.len() && s[i] == '[' {
            let close = str_to_chars("]");
            match esc_until(s, i + 1, close.as_slice(), true) {
                Some(k) => {
                    proof { lemma_esc_until_range(s@, i + 1, close@, true); }
                    props = Some(Token { start: i + 1, end: k });
                    j = k + 1;
                },
                None => {},
            }
        }
        let term = str_to_chars("?}");
        proof { reveal_strlit("?}"); reveal_strlit("]"); }
        match esc_until(s, j, term.as_slice(), false) {
            Some(k) => {
                proof { lemma_esc_until_range(s@, j as int, term@, false); }
                Some(RawMatch { whole: Token { start: p, end: k + 2 }, props, content: Some(Token { start: j, end: k }) })
            },
            None => Some(RawMatch { whole: Token { start: p, end: j }, props, content: None }),
        }
    }

    /// The match of the `{<kind ...>}` pattern at `p` (see `spec_raw_kind_at`).
    pub fn raw_kind_at(&self, s: &[char], p: usize) -> (r: Option<RawKindMatch>)
        ensures
            r == spec_raw_kind_at(s@, p as int),
            r matches Some(m) ==> raw_kind_match_wf(s@, m) && m.whole.start == p,
    {
        proof { reveal_strlit("{<"); reveal_strlit(">}"); }
        let open = str_to_chars("{<");
        if p >= s.len() || s.len() - p < 2 || !crate::text::starts_at(s, p, open.as_slice()) {
            return None;
        }
        proof { lemma_word_end(s@, p + 2); }
        let mut w = p + 2;
        while w < s.len() && is_word(s[w])
            invariant
                p + 2 <= w <= s@.len(),
                spec_word_end(s@, p + 2) == spec_word_end(s@, w as int),
            decreases s@.len() - w,
        {
            w += 1;
        }
        let kind = Token { start: p + 2, end: w };
        let term = str_to_chars(">}");
        proof { reveal_strlit(">}"); }
        if w < s.len() && is_inline_space(s[w]) {
            match esc_until(s, w + 1, term.as_slice(), false) {
                Some(k) => {
                    proof { lemma_esc_until_range(s@, w + 1, term@, false); }
                    Some(RawKindMatch { whole: Token { start: p, end: k + 2 }, kind, content: Some(Token { start: w + 1, end: k }) })
                },
                None => None,
            }
        } else if crate::text::starts_at(s, w, term.as_slice()) {
            Some(RawKindMatch { whole: Token { start: p, end: w + 2 }, kind, content: None })
        } else {
            None
        }
    }

    /// The first raw code at or after `from`, in either form.
    pub fn find(&self, s: &[char], from: usize) -> (r: Option<Result<RawMatch, RawKindMatch>>)
        ensures
            match r {
                Some(Ok(m)) => from <= m.whole.start && spec_raw_at(s@, m.whole.start as int) == Some(m)
                    && raw_match_wf(s@, m)
                    && forall|q: int| from <= q < m.whole.start ==> spec_raw_at(s@, q) is None && spec_raw_kind_at(s@, q) is None,
                Some(Err(m)) => from <= m.whole.start && spec_raw_at(s@, m.whole.start as int) is None
                    && spec_raw_kind_at(s@, m.whole.start as int) == Some(m) && raw_kind_match_wf(s@, m)
                    && forall|q: int| from <= q < m.whole.start ==> spec_raw_at(s@, q) is None && spec_raw_kind_at(s@, q) is None,
                None => forall|q: int| from <= q ==> spec_raw_at(s@, q) is None && spec_raw_kind_at(s@, q) is None,
            },
    {
        proof { reveal_strlit("{<"); reveal_strlit("{?"); }
        let mut p = from;
        while p < s.len()
            invariant
                from <= p,
                forall|q: int| from <= q < p ==> spec_raw_at(s@, q) is None && spec_raw_kind_at(s@, q) is None,
            decreases s@.len() - p,
        {
            match self.raw_at(s, p) {
                Some(m) => return Some(Ok(m)),
                None => {},
            }
            match self.raw_kind_at(s, p) {
                Some(m) => return Some(Err(m)),
                None => {},
            }
            p += 1;
        }
        proof {
            assert forall|q: int| from <= q implies spec_raw_at(s@, q) is None && spec_raw_kind_at(s@, q) is None by {
                if q >= s@.len() {
                    assert(!spec_starts_at(s@, q, "{?"@));
                    assert(!spec_starts_at(s@, q, "{<"@));
                }
            }
        }
        None
    }

    /// Builds the raw code of a `{?...?}` match, or the report that refuses it.
    pub fn on_match(&self, s: &[char], m: RawMatch, sems: &mut Semantics) -> (r: Result<Raw, Report>)
        requires
            raw_match_wf(s@, m),
            schema_view(self.properties@) == raw_schema(),
            old(sems).wf(),
        ensures
            final(sems).wf(),
            match r {
                Ok(raw) => spec_raw_result(s@, m) == Ok::<(ElemKind, Seq<char>), ReportCode>((raw.kind, raw.content@))
                    && raw.location == m.whole,
                Err(rep) => spec_raw_result(s@, m) == Err::<(ElemKind, Seq<char>), ReportCode>(rep.code) && rep.kind == spec_report_kind(rep.code)
                    && rep.span == m.whole,
            },
            r is Ok ==> final(sems).tokens@ == spec_raw_tokens(old(sems).tokens@, m),
            r is Err ==> final(sems).tokens@ == old(sems).tokens@,
    {
        let c = match m.content {
            None => {
                return Err(Report { kind: ReportKind::Error, code: ReportCode::UnterminatedRaw, span: m.whole });
            },
            Some(c) => c,
        };
        proof { reveal_strlit("?}"); reveal_strlit("]"); }
        let term = str_to_chars("?}");
        let content = escape_text('\\', term.as_slice(), s, c.start, c.end);
        let props_text = match m.props {
            None => Vec::new(),
            Some(p) => {
                let close = str_to_chars("]");
                escape_text('\\', close.as_slice(), s, p.start, p.end)
            },
        };
        proof { reveal_strlit("?}"); reveal_strlit("]"); }
        let entries = match parse_properties(props_text.as_slice(), &self.properties) {
            Err(_) => {
                return Err(Report { kind: ReportKind::Error, code: ReportCode::InvalidRawProperties, span: m.whole });
            },
            Ok(e) => e,
        };
        let kind_name = str_to_chars("kind");
        let kind = match lookup(&entries, kind_name.as_slice()) {
            None => {
                return Err(Report { kind: ReportKind::Error, code: ReportCode::InvalidRawProperties, span: m.whole });
            },
            Some(k) => match elem_kind_from(k.as_slice()) {
                None => {
                    return Err(Report { kind: ReportKind::Error, code: ReportCode::InvalidRawKind, span: m.whole });
                },
                Some(kind) => kind,
            },
        };
        sems.add(m.whole.start, m.whole.start + 2, SemKind::RawSep);
        match m.props {
            Some(p) => {
                sems.add(p.start - 1, p.start, SemKind::RawPropsSep);
                sems.add(p.start, p.end, SemKind::RawProps);
                sems.add(p.end, p.end + 1, SemKind::RawPropsSep);
            },
            None => {},
        }
        sems.add(c.start, c.end, SemKind::RawContent);
        sems.add(m.whole.end - 2, m.whole.end, SemKind::RawSep);
        Ok(Raw { location: m.whole, kind, content: chars_to_string(content.as_slice()) })
    }

    /// The warning for raw code whose content, once trimmed and unescaped,
    /// is empty: it comes before whatever else the match gives.
    pub fn empty_warning(&self, s: &[char], m: RawMatch) -> (r: Option<Report>)
        requires
            raw_match_wf(s@, m),
        ensures
            match r {
                Some(rep) => spec_raw_warning(s@, m) == seq![rep],
                None => spec_raw_warning(s@, m).len() == 0,
            },
    {
        match m.content {
            None => None,
            Some(c) => {
                proof { reveal_strlit("?}"); }
                let term = str_to_chars("?}");
                let content = escape_text('\\', term.as_slice(), s, c.start, c.end);
                if content.len() == 0 {
                    Some(Report { kind: ReportKind::Warning, code: ReportCode::EmptyRaw, span: c })
                } else {
                    None
                }
            },
        }
    }

    /// Builds the raw code of a `{<kind ...>}` match, or the report that refuses it.
    pub fn on_kind_match(&self, s: &[char], m: RawKindMatch, sems: &mut Semantics) -> (r: Result<Raw, Report>)
        requires
            raw_kind_match_wf(s@, m),
            old(sems).wf(),
        ensures
            final(sems).wf(),
            match r {
                Ok(raw) => spec_raw_kind_result(s@, m) == Ok::<(ElemKind, Seq<char>), ReportCode>((raw.kind, raw.content@))
                    && raw.location == m.whole,
                Err(rep) => spec_raw_kind_result(s@, m) == Err::<(ElemKind, Seq<char>), ReportCode>(rep.code) && rep.kind == spec_report_kind(rep.code)
                    && rep.span == m.whole,
            },
            final(sems).tokens@ == ({
                let a = spec_add_token(old(sems).tokens@, m.whole.start as int, m.whole.start + 2, SemKind::RawSep);
                let b = spec_add_token(a, m.kind.start as int, m.kind.end as int, SemKind::RawKind);
                if r is Ok {
                    let c = spec_add_token(b, m.content->0.start as int, m.content->0.end as int, SemKind::RawContent);
                    spec_add_token(c, m.whole.end - 2, m.whole.end as int, SemKind::RawSep)
                } else {
                    b
                }
            }),
    {
        sems.add(m.whole.start, m.whole.start + 2, SemKind::RawSep);
        sems.add(m.kind.start, m.kind.end, SemKind::RawKind);
        let k = &s[m.kind.start..m.kind.end];
        let kind = if crate::text::eq_str(k, "inline") {
            ElemKind::Inline
        } else if crate::text::eq_str(k, "block") {
            ElemKind::Block
        } else if crate::text::eq_str(k, "invisible") {
            ElemKind::Invisible
        } else {
            return Err(Report { kind: ReportKind::Error, code: ReportCode::InvalidRawKind, span: m.whole });
        };
        let c = match m.content {
            None => {
                return Err(Report { kind: ReportKind::Error, code: ReportCode::RawExpectsContent, span: m.whole });
            },
            Some(c) => c,
        };
        sems.add(c.start, c.end, SemKind::RawContent);
        sems.add(m.whole.end - 2, m.whole.end, SemKind::RawSep);
        Ok(Raw { location: m.whole, kind, content: chars_to_string(&s[c.start..c.end]) })
    }
}

} // verus!
