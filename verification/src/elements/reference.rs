//! References to other elements: `&{refname}` for an element of the same
//! document, `&{doc#refname}` and `&{#refname}` for elements of other
//! documents, with an optional `[caption=...]`.
use vstd::prelude::*;

use std::fmt::Write;

use crate::chars::{spec_is_whitespace, is_whitespace};
use crate::compile::{push_chars, push_str, sanitize, sanitize_format, spec_sanitize, spec_sanitize_format};
use crate::document::{
    spec_report_kind, last_medium, spec_defines_reference, spec_last_definition, spec_last_medium, Document, Element, Report,
    ReportCode, ReportKind, Token,
};
use crate::elements::media::{spec_medium_reference_html, MediaType, Medium};
use crate::elements::section::spec_section_reference_html;
use crate::interop::{chars_to_string, str_to_chars};
use crate::properties::{
    lookup, parse_properties, schema_view, spec_lookup, spec_parse_properties, PropertySpec,
};
use crate::scan::{esc_until, find_char, lemma_esc_until_range, lemma_find_char, line_end, lemma_line_end, spec_esc_until, spec_find_char, spec_line_end};
use crate::semantics::{spec_add_token, SemKind, SemToken, Semantics};
use crate::text::{escape_text, spec_escape_text, spec_starts_at, spec_trim, trim};

verus! {

/// A reference to an element of another document.
pub enum CrossReference {
    /// `&{#refname}`: the element named `refname` in any document.
    Unspecific(String),
    /// `&{doc#refname}`: the element named `refname` in document `doc`.
    Specific(String, String),
}

/// How references to other documents are displayed when they have no caption.
pub struct ExternalReferenceStyle {
    pub format_unspecific: String,
    pub format_specific: String,
}

impl ExternalReferenceStyle {
    pub fn default() -> (r: ExternalReferenceStyle)
        ensures
            r.format_unspecific@ == "(#{refname})"@,
            r.format_specific@ == "({refdoc}#{refname})"@,
    {
        ExternalReferenceStyle {
            format_unspecific: String::from_str("(#{refname})"),
            format_specific: String::from_str("({refdoc}#{refname})"),
        }
    }
}

/// A reference to an element of the same document.
pub struct InternalReference {
    pub location: Token,
    pub refname: String,
    pub caption: Option<String>,
}

/// The caption of an internal reference, as text.
pub open spec fn caption_view(c: Option<String>) -> Option<Seq<char>> {
    match c {
        Some(x) => Some(x@),
        None => None,
    }
}

/// HTML of a reference, shown as `caption` or by default, to the element
/// `e`: a section, or the last medium named `name` of a group of images,
/// numbered `refid` among the references.
pub open spec fn spec_reference_html(e: Element, name: Seq<char>, refid: usize, caption: Option<Seq<char>>) -> Seq<char> {
    match e {
        Element::Section(s) => spec_section_reference_html(s.title@, caption),
        Element::Media(g) => {
            let k = choose|k: int| spec_last_medium(g.media@, name, k);
            spec_medium_reference_html(g.media@[k].uri@, refid, caption)
        },
        _ => Seq::empty(),
    }
}

/// Whether the medium that `name` resolves to in `content`, if any, is an
/// image.
pub open spec fn spec_resolves_to_image(content: Seq<Element>, name: Seq<char>) -> bool {
    forall|i: int, k: int|
        #![trigger spec_last_definition(content, name, i), spec_last_medium(media_of(content[i]), name, k)]
        spec_last_definition(content, name, i) && content[i] is Media && spec_last_medium(media_of(content[i]), name, k)
            ==> media_of(content[i])[k].media_type == MediaType::IMAGE
}

/// The media of a group of media.
pub open spec fn media_of(e: Element) -> Seq<Medium> {
    match e {
        Element::Media(g) => g.media@,
        _ => Seq::empty(),
    }
}

impl InternalReference {
    /// HTML of the reference in `doc`: that of a reference to the element
    /// that last defines the name (a medium is numbered `refid` among the
    /// references); an error when no element defines it.
    pub fn compile(&self, doc: &Document, refid: usize) -> (r: Result<String, String>)
        requires
            spec_resolves_to_image(doc.content@, self.refname@),
        ensures
            match r {
                Ok(h) => exists|i: int| spec_last_definition(doc.content@, self.refname@, i)
                    && h@ == spec_reference_html(doc.content@[i], self.refname@, refid, caption_view(self.caption)),
                Err(m) => (forall|j: int| 0 <= j < doc.content@.len()
                    ==> !spec_defines_reference(#[trigger] doc.content@[j], self.refname@))
                    && m@ == "Unable to find reference `"@ + self.refname@ + "` in current document"@,
            },
    {
        proof {
            reveal_strlit("Unable to find reference `");
            reveal_strlit("` in current document");
        }
        let name = str_to_chars(self.refname.as_str());
        match doc.find_reference(name.as_slice()) {
            None => {
                let mut m: Vec<char> = Vec::new();
                push_str(&mut m, "Unable to find reference `");
                push_chars(&mut m, name.as_slice());
                push_str(&mut m, "` in current document");
                Err(chars_to_string(m.as_slice()))
            },
            Some(i) => {
                let caption = match &self.caption {
                    Some(c) => Some(c),
                    None => None,
                };
                let ghost cv = caption_view(self.caption);
                assert(match caption { Some(c) => Some(c@), None => None::<Seq<char>> } == cv);
                match &doc.content[i] {
                    Element::Section(s) => Ok(s.compile_reference(caption)),
                    Element::Media(g) => {
                        match last_medium(&g.media, name.as_slice()) {
                            Some(k) => {
                                proof {
                                    assert(spec_last_medium(g.media@, self.refname@, k as int));
                                    let c = choose|c: int| spec_last_medium(g.media@, self.refname@, c);
                                    assert(c == k) by {
                                        if c < k {
                                            assert(g.media@[k as int].reference@ != self.refname@);
                                        } else if c > k {
                                            assert(g.media@[c].reference@ != self.refname@);
                                        }
                                    }
                                    assert(media_of(doc.content@[i as int]) == g.media@);
                                    assert(spec_last_definition(doc.content@, self.refname@, i as int));
                                }
                                Ok(g.media[k].compile_reference(refid, caption))
                            },
                            None => {
                                proof {
                                    assert(spec_defines_reference(doc.content@[i as int], self.refname@));
                                    let c = choose|c: int| spec_last_medium(g.media@, self.refname@, c);
                                    assert(g.media@[c].reference@ != self.refname@);
                                }
                                Err(String::new())
                            },
                        }
                    },
                    _ => {
                        proof {
                            assert(spec_defines_reference(doc.content@[i as int], self.refname@));
                        }
                        Err(String::new())
                    },
                }
            },
        }
    }

    pub fn caption(&self) -> (r: Option<&String>)
        ensures
            r == match &self.caption {
                Some(c) => Some(c),
                None => None::<&String>,
            },
    {
        match &self.caption {
            Some(c) => Some(c),
            None => None,
        }
    }
}

/// A reference to an element of another document.
pub struct ExternalReference {
    pub location: Token,
    pub reference: CrossReference,
    pub caption: Option<String>,
    pub style: ExternalReferenceStyle,
}

impl ExternalReference {
    pub fn style(&self) -> (r: &ExternalReferenceStyle)
        ensures
            r == &self.style,
    {
        &self.style
    }
}

/// An ASCII punctuation character.
pub open spec fn spec_is_ascii_punct(c: char) -> bool {
    ('!' <= c && c <= '/') || (':' <= c && c <= '@') || ('[' <= c && c <= '`') || ('{' <= c && c <= '~')
}

/// A control character.
pub open spec fn spec_is_control(c: char) -> bool {
    (c as u32) < 0x20 || (0x7f <= (c as u32) && (c as u32) <= 0x9f)
}

/// A character that a reference name may hold.
pub open spec fn spec_refname_char(c: char) -> bool {
    !(spec_is_ascii_punct(c) && c != '.' && c != '_') && !spec_is_whitespace(c) && !spec_is_control(c)
}

/// A valid reference name: `name` trimmed, when it is not empty and holds no
/// whitespace, control character or ASCII punctuation other than `.` and `_`.
pub open spec fn spec_validate_refname(name: Seq<char>) -> Option<Seq<char>> {
    let t = spec_trim(name);
    if t.len() > 0 && forall|i: int| 0 <= i < t.len() ==> spec_refname_char(#[trigger] t[i]) {
        Some(t)
    } else {
        None
    }
}

fn refname_char(c: char) -> (r: bool)
    ensures
        r == spec_refname_char(c),
{
    let v = c as u32;
    let punct = ('!' <= c && c <= '/') || (':' <= c && c <= '@') || ('[' <= c && c <= '`') || ('{' <= c && c <= '~');
    !(punct && c != '.' && c != '_') && !is_whitespace(c) && !(v < 0x20 || (0x7f <= v && v <= 0x9f))
}

/// A valid reference name (see `spec_validate_refname`).
pub fn validate_refname(name: &[char]) -> (r: Option<Vec<char>>)
    ensures
        match r {
            Some(v) => spec_validate_refname(name@) == Some(v@),
            None => spec_validate_refname(name@) is None,
        },
{
    let t = trim(name);
    if t.len() == 0 {
        return None;
    }
    let mut i: usize = 0;
    while i < t.len()
        invariant
            0 <= i <= t@.len(),
            t@ == spec_trim(name@),
            t@.len() > 0,
            forall|k: int| 0 <= k < i ==> spec_refname_char(#[trigger] t@[k]),
        decreases t@.len() - i,
    {
        if !refname_char(t[i]) {
            assert(!spec_refname_char(t@[i as int]));
            assert(!(forall|k: int| 0 <= k < t@.len() ==> spec_refname_char(#[trigger] t@[k])));
            assert(spec_validate_refname(name@) is None);
            return None;
        }
        i += 1;
    }
    Some(t)
}

/// The ranges of a reference.
#[derive(Clone, Copy, PartialEq, Eq, Debug, Structural)]
pub struct ReferenceMatch {
    pub whole: Token,
    pub link: Token,
    pub props: Option<Token>,
}

/// The match of `&\{(.*?)\}(?:\[((?:\\.|[^\\])*?)\])?` at `p`: `&{`, the
/// link up to the first `}` of the line, then optional properties.
pub open spec fn spec_reference_at(s: Seq<char>, p: int) -> Option<ReferenceMatch> {
    if !spec_starts_at(s, p, "&{"@) {
        None
    } else {
        match spec_find_char(s, p + 2, spec_line_end(s, p + 2), '}') {
            None => None,
            Some(k) => {
                let link = Token { start: (p + 2) as usize, end: k as usize };
                if k + 1 < s.len() && s[k + 1] == '[' && spec_esc_until(s, k + 2, "]"@, false) is Some {
                    let e = spec_esc_until(s, k + 2, "]"@, false)->0;
                    Some(ReferenceMatch {
                        whole: Token { start: p as usize, end: (e + 1) as usize },
                        link,
                        props: Some(Token { start: (k + 2) as usize, end: e as usize }),
                    })
                } else {
                    Some(ReferenceMatch { whole: Token { start: p as usize, end: (k + 1) as usize }, link, props: None })
                }
            },
        }
    }
}

pub open spec fn reference_match_wf(s: Seq<char>, m: ReferenceMatch) -> bool {
    &&& m.whole.start + 2 == m.link.start <= m.link.end && m.link.end + 1 <= m.whole.end <= s.len()
    &&& m.props matches Some(p) ==> m.link.end + 2 == p.start <= p.end && p.end + 1 == m.whole.end
    &&& m.props is None ==> m.whole.end == m.link.end + 1
}

/// Properties of references.
pub open spec fn reference_schema() -> Seq<(Seq<char>, bool, Option<Seq<char>>)> {
    seq![("caption"@, false, None)]
}

/// Mathematical form of the element a reference yields.
pub enum RefTarget {
    Internal(Seq<char>),
    Unspecific(Seq<char>),
    Specific(Seq<char>, Seq<char>),
}

/// What the reference `m` yields: its target and caption, or the error that
/// refuses it.
pub open spec fn spec_reference_result(s: Seq<char>, m: ReferenceMatch) -> Result<(RefTarget, Option<Seq<char>>), ReportCode> {
    let link = s.subrange(m.link.start as int, m.link.end as int);
    let sep = spec_find_char(link, 0, link.len() as int, '#');
    let target = match sep {
        Some(k) => match spec_validate_refname(link.subrange(k + 1, link.len() as int)) {
            None => None,
            Some(n) => if k == 0 {
                Some(RefTarget::Unspecific(n))
            } else {
                Some(RefTarget::Specific(link.subrange(0, k), n))
            },
        },
        None => match spec_validate_refname(link) {
            None => None,
            Some(n) => Some(RefTarget::Internal(n)),
        },
    };
    let props = match m.props {
        None => Seq::<char>::empty(),
        Some(p) => spec_escape_text('\\', "]"@, s.subrange(p.start as int, p.end as int)),
    };
    match target {
        None => Err(ReportCode::InvalidReferenceRefname),
        Some(t) => match spec_parse_properties(props, reference_schema()) {
            Err(_) => Err(ReportCode::InvalidReferenceProperties),
            Ok(entries) => Ok((t, spec_lookup(entries, "caption"@))),
        },
    }
}

/// The rule for references.
pub struct ReferenceRule {
    /// The properties of references: `caption`, optional.
    pub properties: Vec<PropertySpec>,
    /// The current style of references to other documents, given to each.
    pub style: ExternalReferenceStyle,
}

impl ReferenceRule {
    /// The rule, with the default style of references to other documents.
    pub fn new() -> (r: ReferenceRule)
        ensures
            schema_view(r.properties@) == reference_schema(),
            r.style.format_unspecific@ == "(#{refname})"@,
            r.style.format_specific@ == "({refdoc}#{refname})"@,
    {
        let mut properties: Vec<PropertySpec> = Vec::new();
        properties.push(PropertySpec { name: str_to_chars("caption"), required: false, default: None });
        let r = ReferenceRule { properties, style: ExternalReferenceStyle::default() };
        assert(schema_view(r.properties@) =~= reference_schema());
        r
    }

    /// The match of the reference pattern at `p` (see `spec_reference_at`).
    pub fn reference_at(&self, s: &[char], p: usize) -> (r: Option<ReferenceMatch>)
        ensures
            r == spec_reference_at(s@, p as int),
            r matches Some(m) ==> reference_match_wf(s@, m) && m.whole.start == p,
    {
        proof { reveal_strlit("&{"); reveal_strlit("]"); }
        let open = str_to_chars("&{");
        if p >= s.len() || s.len() - p < 2 || !crate::text::starts_at(s, p, open.as_slice()) {
            return None;
        }
        let le = line_end(s, p + 2);
        match find_char(s, p + 2, le, '}') {
            None => None,
            Some(k) => {
                proof { lemma_find_char(s@, p + 2, le as int, '}'); }
                let link = Token { start: p + 2, end: k };
                if k + 1 < s.len() && s[k + 1] == '[' {
                    let close = str_to_chars("]");
                    match esc_until(s, k + 2, close.as_slice(), false) {
                        Some(e) => {
                            proof { lemma_esc_until_range(s@, k + 2, close@, false); }
                            return Some(ReferenceMatch {
                                whole: Token { start: p, end: e + 1 },
                                link,
                                props: Some(Token { start: k + 2, end: e }),
                            });
                        },
                        None => {},
                    }
                }
                Some(ReferenceMatch { whole: Token { start: p, end: k + 1 }, link, props: None })
            },
        }
    }

    /// The first reference at or after `from`.
    pub fn find(&self, s: &[char], from: usize) -> (r: Option<ReferenceMatch>)
        ensures
            match r {
                Some(m) => from <= m.whole.start && spec_reference_at(s@, m.whole.start as int) == Some(m)
                    && reference_match_wf(s@, m)
                    && forall|q: int| from <= q < m.whole.start ==> spec_reference_at(s@, q) is None,
                None => forall|q: int| from <= q ==> spec_reference_at(s@, q) is None,
            },
    {
        proof { reveal_strlit("&{"); }
        let mut p = from;
        while p < s.len()
            invariant
                from <= p,
                forall|q: int| from <= q < p ==> spec_reference_at(s@, q) is None,
            decreases s@.len() - p,
        {
            match self.reference_at(s, p) {
                Some(m) => return Some(m),
                None => {},
            }
            p += 1;
        }
        None
    }
}

/// The element a reference yields.
pub enum ReferenceElement {
    Internal(InternalReference),
    External(ExternalReference),
}

pub open spec fn target_view(e: &ReferenceElement) -> (RefTarget, Option<Seq<char>>) {
    match e {
        ReferenceElement::Internal(r) => (RefTarget::Internal(r.refname@), match r.caption {
            Some(c) => Some(c@),
            None => None,
        }),
        ReferenceElement::External(r) => (match r.reference {
            CrossReference::Unspecific(n) => RefTarget::Unspecific(n@),
            CrossReference::Specific(d, n) => RefTarget::Specific(d@, n@),
        }, match r.caption {
            Some(c) => Some(c@),
            None => None,
        }),
    }
}

/// The tokens `t` with those of reference `m` added: the `&`, the braces,
/// the name, and, for a reference to another document whose name is `doc`
/// long, that name and the `#`; then the brackets of its properties.
pub open spec fn spec_reference_tokens(t: Seq<SemToken>, m: ReferenceMatch, doc: Option<int>) -> Seq<SemToken> {
    let ls = m.link.start as int;
    let le = m.link.end as int;
    let t1 = spec_add_token(t, ls - 2, ls - 1, SemKind::ReferenceOperator);
    let t2 = spec_add_token(t1, ls - 1, ls, SemKind::ReferenceLinkSep);
    let t3 = match doc {
        Some(dl) => {
            let a = if dl > 0 { spec_add_token(t2, ls, ls + dl, SemKind::ReferenceDoc) } else { t2 };
            let b = spec_add_token(a, ls + dl, ls + dl + 1, SemKind::ReferenceDocSep);
            spec_add_token(b, ls + dl + 1, le, SemKind::ReferenceLink)
        },
        None => spec_add_token(t2, ls, le, SemKind::ReferenceLink),
    };
    let t4 = spec_add_token(t3, le, le + 1, SemKind::ReferenceLinkSep);
    match m.props {
        Some(p) => {
            let a = spec_add_token(t4, p.start - 1, p.start as int, SemKind::ReferencePropsSep);
            spec_add_token(a, p.end as int, p.end + 1, SemKind::ReferencePropsSep)
        },
        None => t4,
    }
}

impl ReferenceRule {
    /// Builds the reference of match `m`, or the report that refuses it.
    #[verifier::spinoff_prover]
    #[verifier::rlimit(50)]
    pub fn on_match(&self, s: &[char], m: ReferenceMatch, sems: &mut Semantics) -> (r: Result<ReferenceElement, Report>)
        requires
            reference_match_wf(s@, m),
            schema_view(self.properties@) == reference_schema(),
            old(sems).wf(),
        ensures
            final(sems).wf(),
            match r {
                Ok(e) => spec_reference_result(s@, m) == Ok::<(RefTarget, Option<Seq<char>>), ReportCode>(target_view(&e))
                    && match e {
                        ReferenceElement::Internal(r) => r.location == m.whole,
                        ReferenceElement::External(r) => r.location == m.whole
                            && r.style.format_unspecific@ == self.style.format_unspecific@
                            && r.style.format_specific@ == self.style.format_specific@,
                    },
                Err(rep) => spec_reference_result(s@, m) == Err::<(RefTarget, Option<Seq<char>>), ReportCode>(rep.code) && rep.kind == spec_report_kind(rep.code)
                    && rep.span == (if rep.code == ReportCode::InvalidReferenceRefname { m.link } else { m.whole }),
            },
            r matches Ok(e) ==> final(sems).tokens@ == spec_reference_tokens(old(sems).tokens@, m, match e {
                ReferenceElement::External(x) => Some(match x.reference {
                    CrossReference::Specific(d, _) => d@.len() as int,
                    CrossReference::Unspecific(_) => 0int,
                }),
                ReferenceElement::Internal(_) => None,
            }),
            r is Err ==> final(sems).tokens@ == old(sems).tokens@,
    {
        proof { reveal_strlit("]"); }
        let link = crate::text::slice_to_vec(s, m.link.start, m.link.end);
        let sep = find_char(link.as_slice(), 0, link.len(), '#');
        proof { lemma_find_char(link@, 0, link@.len() as int, '#'); }
        let ghost linkv = link@;
        let (refdoc, refname) = match sep {
            Some(k) => {
                let after = crate::text::slice_to_vec(link.as_slice(), k + 1, link.len());
                match validate_refname(after.as_slice()) {
                    None => {
                        return Err(Report { kind: ReportKind::Error, code: ReportCode::InvalidReferenceRefname, span: m.link });
                    },
                    Some(n) => (Some(crate::text::slice_to_vec(link.as_slice(), 0, k)), n),
                }
            },
            None => match validate_refname(link.as_slice()) {
                None => {
                    return Err(Report { kind: ReportKind::Error, code: ReportCode::InvalidReferenceRefname, span: m.link });
                },
                Some(n) => (None, n),
            },
        };
        let props_text = match m.props {
            None => Vec::new(),
            Some(p) => {
                let close = str_to_chars("]");
                escape_text('\\', close.as_slice(), s, p.start, p.end)
            },
        };
        let entries = match parse_properties(props_text.as_slice(), &self.properties) {
            Err(_) => {
                return Err(Report { kind: ReportKind::Error, code: ReportCode::InvalidReferenceProperties, span: m.whole });
            },
            Ok(e) => e,
        };
        let cap_name = str_to_chars("caption");
        let caption = match lookup(&entries, cap_name.as_slice()) {
            Some(c) => Some(chars_to_string(c.as_slice())),
            None => None,
        };
        let ls = m.link.start;
        let le = m.link.end;
        sems.add(ls - 2, ls - 1, SemKind::ReferenceOperator);
        sems.add(ls - 1, ls, SemKind::ReferenceLinkSep);
        let elem = match refdoc {
            Some(doc) => {
                let dl = doc.len();
                if dl > 0 {
                    sems.add(ls, ls + dl, SemKind::ReferenceDoc);
                }
                sems.add(ls + dl, ls + dl + 1, SemKind::ReferenceDocSep);
                sems.add(ls + dl + 1, le, SemKind::ReferenceLink);
                let reference = if dl == 0 {
                    CrossReference::Unspecific(chars_to_string(refname.as_slice()))
                } else {
                    CrossReference::Specific(chars_to_string(doc.as_slice()), chars_to_string(refname.as_slice()))
                };
                ReferenceElement::External(ExternalReference {
                    location: m.whole,
                    reference,
                    caption,
                    style: ExternalReferenceStyle {
                        format_unspecific: chars_to_string(str_to_chars(self.style.format_unspecific.as_str()).as_slice()),
                        format_specific: chars_to_string(str_to_chars(self.style.format_specific.as_str()).as_slice()),
                    },
                })
            },
            None => {
                sems.add(ls, le, SemKind::ReferenceLink);
                ReferenceElement::Internal(InternalReference {
                    location: m.whole,
                    refname: chars_to_string(refname.as_slice()),
                    caption,
                })
            },
        };
        sems.add(le, le + 1, SemKind::ReferenceLinkSep);
        match m.props {
            Some(p) => {
                sems.add(p.start - 1, p.start, SemKind::ReferencePropsSep);
                sems.add(p.end, p.end + 1, SemKind::ReferencePropsSep);
            },
            None => {},
        }
        Ok(elem)
    }
}

/// The value given for the key `name` among `keys` (name, value): the last
/// one where a name is given twice, as a map filled from them in order keeps.
pub open spec fn spec_key_value(keys: Seq<(Seq<char>, Seq<char>)>, name: Seq<char>) -> Option<Seq<char>>
    decreases keys.len(),
{
    if keys.len() == 0 {
        None
    } else if keys.last().0 == name {
        Some(keys.last().1)
    } else {
        spec_key_value(keys.drop_last(), name)
    }
}

/// What a runtime format string `s` writes with the keys `keys`, read from
/// the start of `s` outside a key (`in_key` false) or just after a `{`
/// (`in_key` true). Outside a key the text is written as it stands up to the
/// next `{`. After a `{`, a second `{` is written with what follows it up to
/// the next `{` (which opens a key again); otherwise the name up to the next
/// `}` is replaced by its value. Nothing (`None`) where a name is not among
/// the keys or a key is never closed.
pub open spec fn spec_runtime_format(s: Seq<char>, in_key: bool, keys: Seq<(Seq<char>, Seq<char>)>) -> Option<Seq<char>>
    decreases s.len(),
{
    if s.len() == 0 {
        Some(Seq::empty())
    } else if !in_key || s[0] == '{' {
        let from: int = if in_key { 1 } else { 0 };
        match spec_find_char(s, from, s.len() as int, '{') {
            None => Some(s),
            Some(p) => {
                proof {
                    lemma_find_char(s, from, s.len() as int, '{');
                }
                match spec_runtime_format(s.skip(p + 1), true, keys) {
                    Some(t) => Some(s.take(p) + t),
                    None => None,
                }
            },
        }
    } else {
        match spec_find_char(s, 0, s.len() as int, '}') {
            None => None,
            Some(q) => {
                proof {
                    lemma_find_char(s, 0, s.len() as int, '}');
                }
                match (spec_key_value(keys, s.take(q)), spec_runtime_format(s.skip(q + 1), false, keys)) {
                    (Some(v), Some(t)) => Some(v + t),
                    _ => None,
                }
            },
        }
    }
}

pub open spec fn pairs_view(keys: Seq<(String, String)>) -> Seq<(Seq<char>, Seq<char>)> {
    keys.map_values(|p: (String, String)| (p.0@, p.1@))
}

/// Writes `runtime_format::FormatArgs::new(format, &keys)` to a string, the
/// keys given as a `HashMap` from name to value (whose `FormatKey` impl in
/// `runtime_format` writes the value of a known key and refuses any other).
/// The contract claims that the segments `runtime_format` parses from the
/// format (literal text, `{{` escapes, `{name}` keys) are written as
/// `spec_runtime_format` reads them: the text when writing succeeds, and a
/// failure exactly where that reading gives nothing.
#[verifier::external_body]
fn format_with_keys(format: &str, keys: &Vec<(String, String)>) -> (r: Option<String>)
    ensures
        match r {
            Some(v) => spec_runtime_format(format@, false, pairs_view(keys@)) == Some(v@),
            None => spec_runtime_format(format@, false, pairs_view(keys@)) is None,
        },
{
    let map: std::collections::HashMap<&str, &str> = keys.iter().map(|(k, v)| (k.as_str(), v.as_str())).collect();
    let args = runtime_format::FormatArgs::new(format, &map);
    let mut out = String::new();
    match write!(out, "{}", args) {
        Ok(()) => Some(out),
        Err(_) => None,
    }
}

/// The keys of a reference to another document: its (HTML) name, and the
/// (HTML) name of the document when one is given.
pub open spec fn spec_reference_keys(r: RefTarget) -> Seq<(Seq<char>, Seq<char>)> {
    match r {
        RefTarget::Specific(d, n) => seq![("refdoc"@, spec_sanitize(d)), ("refname"@, spec_sanitize(n))],
        RefTarget::Unspecific(n) => seq![("refname"@, spec_sanitize(n))],
        RefTarget::Internal(n) => seq![("refname"@, spec_sanitize(n))],
    }
}

pub open spec fn cross_view(r: CrossReference) -> RefTarget {
    match r {
        CrossReference::Unspecific(n) => RefTarget::Unspecific(n@),
        CrossReference::Specific(d, n) => RefTarget::Specific(d@, n@),
    }
}

/// HTML of a reference to another document: a link (whose target the
/// compiler writes after `<a href="`), shown as its caption or with the
/// style's format for its kind.
pub open spec fn spec_external_html(
    r: RefTarget,
    caption: Option<Seq<char>>,
    format_unspecific: Seq<char>,
    format_specific: Seq<char>,
) -> Option<Seq<char>> {
    match caption {
        Some(c) => Some("<a href=\"\">"@ + spec_sanitize(c) + "</a>"@),
        None => {
            let fmt = match r {
                RefTarget::Specific(_, _) => spec_sanitize_format(format_specific),
                _ => spec_sanitize_format(format_unspecific),
            };
            match spec_runtime_format(fmt, false, spec_reference_keys(r)) {
                Some(f) => Some("<a href=\"\">"@ + f + "</a>"@),
                None => None,
            }
        },
    }
}

impl ExternalReference {
    /// HTML of the reference (see `spec_external_html`), or the error of a
    /// format that does not fit the reference.
    pub fn compile(&self) -> (r: Result<String, String>)
        ensures
            match r {
                Ok(h) => spec_external_html(cross_view(self.reference), match self.caption {
                    Some(c) => Some(c@),
                    None => None,
                }, self.style.format_unspecific@, self.style.format_specific@) == Some(h@),
                Err(_) => spec_external_html(cross_view(self.reference), match self.caption {
                    Some(c) => Some(c@),
                    None => None,
                }, self.style.format_unspecific@, self.style.format_specific@) is None,
            },
    {
        proof {
            reveal_strlit("<a href=\"\">");
            reveal_strlit("</a>");
            reveal_strlit("refdoc");
            reveal_strlit("refname");
        }
        let shown: Vec<char> = match &self.caption {
            Some(c) => sanitize(str_to_chars(c.as_str()).as_slice()),
            None => {
                let (fmt, keys) = match &self.reference {
                    CrossReference::Specific(d, n) => {
                        let mut keys: Vec<(String, String)> = Vec::new();
                        keys.push((String::from_str("refdoc"), chars_to_string(sanitize(str_to_chars(d.as_str()).as_slice()).as_slice())));
                        keys.push((String::from_str("refname"), chars_to_string(sanitize(str_to_chars(n.as_str()).as_slice()).as_slice())));
                        (sanitize_format(str_to_chars(self.style.format_specific.as_str()).as_slice()), keys)
                    },
                    CrossReference::Unspecific(n) => {
                        let mut keys: Vec<(String, String)> = Vec::new();
                        keys.push((String::from_str("refname"), chars_to_string(sanitize(str_to_chars(n.as_str()).as_slice()).as_slice())));
                        (sanitize_format(str_to_chars(self.style.format_unspecific.as_str()).as_slice()), keys)
                    },
                };
                proof {
                    assert(pairs_view(keys@) =~= spec_reference_keys(cross_view(self.reference)));
                }
                let fmt_s = chars_to_string(fmt.as_slice());
                match format_with_keys(fmt_s.as_str(), &keys) {
                    Some(f) => str_to_chars(f.as_str()),
                    None => {
                        let mut msg: Vec<char> = Vec::new();
                        push_str(&mut msg, "Failed to format ExternalReference style `");
                        push_chars(&mut msg, fmt.as_slice());
                        push_str(&mut msg, "`");
                        return Err(chars_to_string(msg.as_slice()));
                    },
                }
            },
        };
        let mut out: Vec<char> = Vec::new();
        push_str(&mut out, "<a href=\"\">");
        push_chars(&mut out, shown.as_slice());
        push_str(&mut out, "</a>");
        proof {
            let cv = match &self.caption {
                Some(c) => Some(c@),
                None => None::<Seq<char>>,
            };
            assert(Some(out@) == spec_external_html(cross_view(self.reference), cv, self.style.format_unspecific@, self.style.format_specific@));
        }
        Ok(chars_to_string(out.as_slice()))
    }
}

} // verus!
