//! Sections: headings written `#`, `##`, ... at the start of a line, with an
//! optional `{refname}` and numbering kind (`*` unnumbered, `+` not listed).
use vstd::prelude::*;

use crate::chars::spec_is_whitespace;
use crate::document::{spec_report_kind, Report, ReportCode, ReportKind, Token};
use crate::compile::{push_chars, push_decimal, push_str, refname, sanitize, spec_decimal, spec_refname, spec_sanitize};
use crate::interop::{chars_to_string, str_to_chars};
use crate::scan::{
    lemma_line_end, lemma_rfind_char, line_end, line_start_at, rfind_char, spec_line_end,
    spec_line_start_at, spec_rfind_char,
};
use crate::semantics::{spec_add_token, SemKind, SemToken, Semantics};
use crate::text::{lead_ws, skip_whitespace};

verus! {

/// Numbering kinds of sections.
pub const NONE: u8 = 0;
/// The section is not listed in the table of contents.
pub const NO_TOC: u8 = 1;
/// The section is not numbered.
pub const NO_NUMBER: u8 = 2;

/// Where the link to a section is placed in its heading.
#[derive(Clone, Copy, PartialEq, Eq, Debug, Structural)]
pub enum SectionLinkPos {
    Before,
    After,
    /// No link (written `None` in styles).
    Hidden,
}

/// How sections are displayed.
pub struct SectionStyle {
    pub link_pos: SectionLinkPos,
    /// Text before the link, text of the link, text after the link.
    pub link: Vec<String>,
}

impl SectionStyle {
    /// The default style: a `🔗` link before the title.
    pub fn default() -> (r: SectionStyle)
        ensures
            r.link_pos == SectionLinkPos::Before,
            r.link@.len() == 3,
            r.link@[0]@ == ""@,
            r.link@[1]@ == "🔗"@,
            r.link@[2]@ == " "@,
    {
        let mut link: Vec<String> = Vec::new();
        link.push(String::from_str(""));
        link.push(String::from_str("🔗"));
        link.push(String::from_str(" "));
        SectionStyle { link_pos: SectionLinkPos::Before, link }
    }
}

/// A section heading.
pub struct Section {
    pub location: Token,
    /// Title of the section.
    pub title: String,
    /// Depth, the number of `#`.
    pub depth: usize,
    /// `NONE`, or `NO_TOC` and/or `NO_NUMBER`.
    pub kind: u8,
    /// Reference name of the section.
    pub reference: Option<String>,
}

/// The ranges of a section heading.
#[derive(Clone, Copy, PartialEq, Eq, Debug, Structural)]
pub struct SectionMatch {
    /// The whole heading (from the newline before it, if any).
    pub whole: Token,
    pub depth: Token,
    pub refname: Option<Token>,
    pub kind: Option<Token>,
    pub name: Token,
}

/// End of the run of `c` that starts at `i`.
pub open spec fn spec_run_end(s: Seq<char>, i: int, c: char) -> int
    decreases s.len() - i,
{
    if 0 <= i < s.len() && s[i] == c {
        spec_run_end(s, i + 1, c)
    } else {
        i
    }
}

/// End of the run of `*` and `+` that starts at `i`.
pub open spec fn spec_kind_run_end(s: Seq<char>, i: int) -> int
    decreases s.len() - i,
{
    if 0 <= i < s.len() && (s[i] == '*' || s[i] == '+') {
        spec_kind_run_end(s, i + 1)
    } else {
        i
    }
}

proof fn lemma_run_end(s: Seq<char>, i: int, c: char)
    requires
        0 <= i <= s.len(),
    ensures
        i <= spec_run_end(s, i, c) <= s.len(),
        forall|k: int| i <= k < spec_run_end(s, i, c) ==> s[k] == c,
    decreases s.len() - i,
{
    if i < s.len() && s[i] == c {
        lemma_run_end(s, i + 1, c);
    }
}

proof fn lemma_kind_run_end(s: Seq<char>, i: int)
    requires
        0 <= i <= s.len(),
    ensures
        i <= spec_kind_run_end(s, i) <= s.len(),
        forall|k: int| i <= k < spec_kind_run_end(s, i) ==> s[k] == '*' || s[k] == '+',
    decreases s.len() - i,
{
    if i < s.len() && (s[i] == '*' || s[i] == '+') {
        lemma_kind_run_end(s, i + 1);
    }
}

/// The heading whose `#`s start at `q`, for a match that starts at `p`.
pub open spec fn spec_heading_from(s: Seq<char>, p: int, q: int) -> Option<SectionMatch> {
    let d = spec_run_end(s, q, '#');
    if d == q {
        None
    } else {
        let le = spec_line_end(s, d);
        let (refname, next) = if d < s.len() && s[d] == '{' {
            match spec_rfind_char(s, d + 1, le, '}') {
                Some(k) => (Some(Token { start: (d + 1) as usize, end: k as usize }), k + 1),
                None => (None::<Token>, d),
            }
        } else {
            (None::<Token>, d)
        };
        let ke = spec_kind_run_end(s, next);
        let kind = if ke > next { Some(Token { start: next as usize, end: ke as usize }) } else { None };
        Some(SectionMatch {
            whole: Token { start: p as usize, end: le as usize },
            depth: Token { start: q as usize, end: d as usize },
            refname,
            kind,
            name: Token { start: ke as usize, end: le as usize },
        })
    }
}

/// The section heading that the pattern
/// `(?:^|\n)(#{1,})(?:\{(.*)\})?((\*|\+){1,})?(.*)` matches at `p`: the
/// start of the text or a newline, a run of `#`, an optional reference name
/// up to the last `}` of the line, an optional run of `*` and `+`, and the
/// rest of the line.
pub open spec fn spec_section_at(s: Seq<char>, p: int) -> Option<SectionMatch> {
    if p == 0 && spec_heading_from(s, 0, 0) is Some {
        spec_heading_from(s, 0, 0)
    } else if 0 <= p < s.len() && s[p] == '\n' {
        spec_heading_from(s, p, p + 1)
    } else {
        None
    }
}

/// What a numbering kind written `k` means.
pub open spec fn spec_section_kind(k: Seq<char>) -> Option<u8> {
    if k == "*+"@ || k == "+*"@ {
        Some(3)
    } else if k == "*"@ {
        Some(2)
    } else if k == "+"@ {
        Some(1)
    } else if k.len() == 0 {
        Some(0)
    } else {
        None
    }
}

/// What a numbering kind written `k` means (see `spec_section_kind`).
pub fn section_kind_from(k: &[char]) -> (r: Option<u8>)
    ensures
        r == spec_section_kind(k@),
{
    proof {
        reveal_strlit("*+");
        reveal_strlit("+*");
        reveal_strlit("*");
        reveal_strlit("+");
    }
    if k.len() == 0 {
        Some(NONE)
    } else if k.len() == 1 && k[0] == '*' {
        assert(k@ =~= "*"@) by { reveal_strlit("*"); }
        Some(NO_NUMBER)
    } else if k.len() == 1 && k[0] == '+' {
        assert(k@ =~= "+"@) by { reveal_strlit("+"); }
        Some(NO_TOC)
    } else if k.len() == 2 && ((k[0] == '*' && k[1] == '+') || (k[0] == '+' && k[1] == '*')) {
        proof {
            reveal_strlit("*+");
            reveal_strlit("+*");
            if k[0] == '*' {
                assert(k@ =~= "*+"@);
            } else {
                assert(k@ =~= "+*"@);
            }
        }
        Some(NO_NUMBER + NO_TOC)
    } else {
        proof {
            reveal_strlit("*+");
            reveal_strlit("+*");
            reveal_strlit("*");
            reveal_strlit("+");
            if k@ == "*+"@ {
                assert(k@[0] == '*' && k@[1] == '+');
            }
            if k@ == "+*"@ {
                assert(k@[0] == '+' && k@[1] == '*');
            }
            if k@ == "*"@ {
                assert(k@[0] == '*');
            }
            if k@ == "+"@ {
                assert(k@[0] == '+');
            }
        }
        None
    }
}

/// The rule for section headings.
pub struct SectionRule {}

/// The tokens `t` with those of the heading `m` added: its `#`s, its
/// reference name (with its braces), its kind and its name.
pub open spec fn spec_section_tokens(t: Seq<SemToken>, m: SectionMatch) -> Seq<SemToken> {
    let t1 = spec_add_token(t, m.depth.start as int, m.depth.end as int, SemKind::SectionHeading);
    let t2 = match m.refname {
        Some(r) => spec_add_token(t1, r.start - 1, r.end + 1, SemKind::SectionReference),
        None => t1,
    };
    let t3 = match m.kind {
        Some(k) => spec_add_token(t2, k.start as int, k.end as int, SemKind::SectionKind),
        None => t2,
    };
    spec_add_token(t3, m.name.start as int, m.name.end as int, SemKind::SectionName)
}

impl SectionRule {
    pub fn new() -> (r: SectionRule) {
        SectionRule {  }
    }

    fn heading_from(&self, s: &[char], p: usize, q: usize) -> (r: Option<SectionMatch>)
        requires
            q <= s@.len(),
            p <= q,
        ensures
            r == spec_heading_from(s@, p as int, q as int),
    {
        proof { lemma_run_end(s@, q as int, '#'); }
        let mut d = q;
        while d < s.len() && s[d] == '#'
            invariant
                q <= d <= s@.len(),
                spec_run_end(s@, q as int, '#') == spec_run_end(s@, d as int, '#'),
            decreases s@.len() - d,
        {
            d += 1;
        }
        if d == q {
            return None;
        }
        let le = line_end(s, d);
        let mut refname: Option<Token> = None;
        let mut next = d;
        proof { lemma_line_end(s@, d as int); }
        if d < s.len() && s[d] == '{' {
            match rfind_char(s, d + 1, le, '}') {
                Some(k) => {
                    refname = Some(Token { start: d + 1, end: k });
                    proof { lemma_rfind_char(s@, d + 1, le as int, '}'); }
                    next = k + 1;
                },
                None => {},
            }
        }
        proof { lemma_kind_run_end(s@, next as int); }
        let mut ke = next;
        while ke < s.len() && (s[ke] == '*' || s[ke] == '+')
            invariant
                next <= ke <= s@.len(),
                spec_kind_run_end(s@, next as int) == spec_kind_run_end(s@, ke as int),
            decreases s@.len() - ke,
        {
            ke += 1;
        }
        let kind = if ke > next { Some(Token { start: next, end: ke }) } else { None };
        Some(SectionMatch {
            whole: Token { start: p, end: le },
            depth: Token { start: q, end: d },
            refname,
            kind,
            name: Token { start: ke, end: le },
        })
    }

    /// The heading the rule's pattern matches at `p` (see `spec_section_at`).
    pub fn section_at(&self, s: &[char], p: usize) -> (r: Option<SectionMatch>)
        ensures
            r == spec_section_at(s@, p as int),
    {
        if p == 0 {
            let h = self.heading_from(s, 0, 0);
            if h.is_some() {
                return h;
            }
        }
        if p < s.len() && s[p] == '\n' {
            self.heading_from(s, p, p + 1)
        } else {
            None
        }
    }

    /// The first heading at or after `from`.
    pub fn find(&self, s: &[char], from: usize) -> (r: Option<SectionMatch>)
        ensures
            match r {
                Some(m) => from <= m.whole.start && spec_section_at(s@, m.whole.start as int) == Some(m)
                    && forall|q: int| from <= q < m.whole.start ==> spec_section_at(s@, q) is None,
                None => forall|q: int| from <= q ==> spec_section_at(s@, q) is None,
            },
    {
        let mut p = from;
        while p < s.len()
            invariant
                from <= p,
                forall|q: int| from <= q < p ==> spec_section_at(s@, q) is None,
            decreases s@.len() - p,
        {
            match self.section_at(s, p) {
                Some(m) => {
                    proof { lemma_section_match_start(s@, p as int); }
                    return Some(m);
                },
                None => {},
            }
            p += 1;
        }
        None
    }
}

proof fn lemma_section_match_start(s: Seq<char>, p: int)
    requires
        s.len() <= usize::MAX,
    ensures
        spec_section_at(s, p) matches Some(m) ==> m.whole.start == p,
{
}

/// Where a match lies in its source.
pub open spec fn section_match_wf(s: Seq<char>, m: SectionMatch) -> bool {
    &&& m.whole.start <= m.depth.start < m.depth.end <= m.name.start <= m.name.end == m.whole.end <= s.len()
    &&& m.refname matches Some(r) ==> m.depth.end < r.start <= r.end < m.name.start
    &&& m.kind matches Some(k) ==> m.depth.end <= k.start < k.end == m.name.start
}

pub proof fn lemma_section_match_wf(s: Seq<char>, p: int)
    requires
        s.len() <= usize::MAX,
    ensures
        spec_section_at(s, p) matches Some(m) ==> section_match_wf(s, m),
{
    let q = if p == 0 && spec_heading_from(s, 0, 0) is Some { 0 } else { p + 1 };
    if spec_section_at(s, p) is Some {
        assert(0 <= q <= s.len());
        lemma_run_end(s, q, '#');
        let d = spec_run_end(s, q, '#');
        lemma_line_end(s, d);
        let le = spec_line_end(s, d);
        if d < s.len() && s[d] == '{' {
            lemma_rfind_char(s, d + 1, le, '}');
        }
        let next = if d < s.len() && s[d] == '{' && spec_rfind_char(s, d + 1, le, '}') is Some {
            spec_rfind_char(s, d + 1, le, '}')->0 + 1
        } else {
            d
        };
        lemma_kind_run_end(s, next);
        assert(forall|k: int| d <= k < le ==> s[k] != '\n');
        let ke = spec_kind_run_end(s, next);
        assert(ke <= le) by {
            if ke > le {
                assert(s[le] == '*' || s[le] == '+');
            }
        }
    }
}

/// Heading title: the name without its leading whitespace.
pub open spec fn spec_title(name: Seq<char>) -> Seq<char> {
    if lead_ws(name) < name.len() { name.skip(lead_ws(name) as int) } else { name }
}

/// What a heading yields: the section, or the error that refuses it.
pub open spec fn spec_section_result(s: Seq<char>, m: SectionMatch) -> Result<(usize, u8, Option<Seq<char>>, Seq<char>), ReportCode> {
    let depth = (m.depth.end - m.depth.start) as usize;
    let kind = match m.kind {
        Some(k) => spec_section_kind(s.subrange(k.start as int, k.end as int)),
        None => Some(0u8),
    };
    let name = s.subrange(m.name.start as int, m.name.end as int);
    let split = if lead_ws(name) < name.len() { lead_ws(name) } else { 0 };
    if depth > 6 {
        Err(ReportCode::InvalidSectionDepth)
    } else if kind is None {
        Err(ReportCode::InvalidSectionKind)
    } else if spec_title(name).len() == 0 {
        Err(ReportCode::MissingSectionName)
    } else if split == 0 {
        Err(ReportCode::MissingSectionSpacing)
    } else {
        Ok((
            depth,
            kind->0,
            match m.refname {
                Some(r) => Some(s.subrange(r.start as int, r.end as int)),
                None => None,
            },
            spec_title(name),
        ))
    }
}

impl SectionRule {
    /// Builds the section of heading `m`, or the report that refuses it.
    pub fn on_match(&self, s: &[char], m: SectionMatch, sems: &mut Semantics) -> (r: Result<Section, Report>)
        requires
            section_match_wf(s@, m),
            old(sems).wf(),
        ensures
            final(sems).wf(),
            match r {
                Ok(sec) => spec_section_result(s@, m) == Ok::<(usize, u8, Option<Seq<char>>, Seq<char>), ReportCode>((
                    sec.depth,
                    sec.kind,
                    match sec.reference {
                        Some(r) => Some(r@),
                        None => None,
                    },
                    sec.title@,
                )) && sec.location == m.whole,
                Err(rep) => spec_section_result(s@, m) == Err::<(usize, u8, Option<Seq<char>>, Seq<char>), ReportCode>(rep.code)
                    && rep.kind == spec_report_kind(rep.code)
                    && (if rep.code == ReportCode::InvalidSectionDepth {
                        rep.span == m.depth
                    } else if rep.code == ReportCode::InvalidSectionKind {
                        m.kind == Some(rep.span)
                    } else {
                        rep.span == m.name
                    }),
            },
            r is Ok ==> final(sems).tokens@ == spec_section_tokens(old(sems).tokens@, m),
            r is Err ==> final(sems).tokens@ == old(sems).tokens@,
    {
        let depth = m.depth.end - m.depth.start;
        if depth > 6 {
            return Err(Report { kind: ReportKind::Error, code: ReportCode::InvalidSectionDepth, span: m.depth });
        }
        let kind = match m.kind {
            Some(k) => {
                let kv = crate::text::slice_to_vec(s, k.start, k.end);
                match section_kind_from(kv.as_slice()) {
                    Some(v) => v,
                    None => {
                        return Err(Report { kind: ReportKind::Error, code: ReportCode::InvalidSectionKind, span: k });
                    },
                }
            },
            None => NONE,
        };
        let first = skip_whitespace(s, m.name.start, m.name.end);
        let split = if first < m.name.end { first } else { m.name.start };
        let ghost name = s@.subrange(m.name.start as int, m.name.end as int);
        assert(s@.subrange(split as int, m.name.end as int) =~= spec_title(name));
        if split == m.name.end {
            return Err(Report { kind: ReportKind::Error, code: ReportCode::MissingSectionName, span: m.name });
        }
        if split == m.name.start {
            return Err(Report { kind: ReportKind::Warning, code: ReportCode::MissingSectionSpacing, span: m.name });
        }
        let title = chars_to_string(&s[split..m.name.end]);
        let reference = match m.refname {
            Some(r) => Some(chars_to_string(&s[r.start..r.end])),
            None => None,
        };
        sems.add(m.depth.start, m.depth.end, SemKind::SectionHeading);
        match m.refname {
            Some(r) => sems.add(r.start - 1, r.end + 1, SemKind::SectionReference),
            None => {},
        }
        match m.kind {
            Some(k) => sems.add(k.start, k.end, SemKind::SectionKind),
            None => {},
        }
        sems.add(m.name.start, m.name.end, SemKind::SectionName);
        Ok(Section { location: m.whole, title, depth, kind, reference })
    }
}

/// The numbers of a section, each followed by a dot.
pub open spec fn spec_numbering(numbering: Seq<usize>) -> Seq<char>
    decreases numbering.len(),
{
    if numbering.len() == 0 {
        Seq::empty()
    } else {
        spec_numbering(numbering.drop_last()) + spec_decimal(numbering.last() as nat) + "."@
    }
}

/// The number written before a section's title: its numbering and a space,
/// unless the section is not numbered.
pub open spec fn spec_section_number(kind: u8, numbering: Seq<usize>) -> Seq<char> {
    if kind & NO_NUMBER != NO_NUMBER {
        spec_numbering(numbering) + " "@
    } else {
        Seq::empty()
    }
}

/// The link of a section heading: the style's text before the link, the
/// link to the section with the style's text, and the text after it.
pub open spec fn spec_section_link(refname: Seq<char>, link: Seq<Seq<char>>) -> Seq<char> {
    spec_sanitize(link[0]) + "<a class=\"section-link\" href=\"#"@ + refname + "\">"@ + spec_sanitize(link[1])
        + "</a>"@ + spec_sanitize(link[2])
}

/// HTML of a section heading.
pub open spec fn spec_section_html(
    depth: usize,
    kind: u8,
    title: Seq<char>,
    numbering: Seq<usize>,
    pos: SectionLinkPos,
    link: Seq<Seq<char>>,
) -> Seq<char> {
    let d = spec_decimal(depth as nat);
    let open = "<h"@ + d + " id=\""@ + spec_refname(title) + "\">"@;
    let close = "</h"@ + d + ">"@;
    let number = spec_section_number(kind, numbering);
    match pos {
        SectionLinkPos::Hidden => open + number + spec_sanitize(title) + close,
        SectionLinkPos::After => open + number + spec_sanitize(title) + spec_section_link(spec_refname(title), link) + close,
        SectionLinkPos::Before => open + spec_section_link(spec_refname(title), link) + number + spec_sanitize(title) + close,
    }
}

/// Where a heading's link goes. A heading of depth N opens with
/// `<hN id="...">` (the id made from its title). Without a link it ends
/// with its title and the closing tag `</hN>`. With the link after the title, the
/// link stands between the title and the closing tag; with the link before,
/// it stands right after the opening tag `<hN id="...">`, before the number
/// and the title. The rest of the heading is the same in the three.
pub proof fn law_section_link_positions(
    depth: usize,
    kind: u8,
    title: Seq<char>,
    numbering: Seq<usize>,
    link: Seq<Seq<char>>,
)
    ensures
        ({
            let h = spec_section_html(depth, kind, title, numbering, SectionLinkPos::Hidden, link);
            let l = spec_section_link(spec_refname(title), link);
            let close = "</h"@ + spec_decimal(depth as nat) + ">"@;
            let t = spec_sanitize(title);
            let open_len = ("<h"@ + spec_decimal(depth as nat) + " id=\""@ + spec_refname(title) + "\">"@).len() as int;
            &&& h.len() >= open_len + t.len() + close.len()
            &&& h.subrange(0, open_len) == "<h"@ + spec_decimal(depth as nat) + " id=\""@ + spec_refname(title) + "\">"@
            &&& h.subrange(h.len() - close.len() - t.len(), h.len() as int) == t + close
            &&& spec_section_html(depth, kind, title, numbering, SectionLinkPos::After, link)
                == h.subrange(0, h.len() - close.len()) + l + close
            &&& spec_section_html(depth, kind, title, numbering, SectionLinkPos::Before, link)
                == h.subrange(0, open_len) + l + h.subrange(open_len, h.len() as int)
        }),
{
    let d = spec_decimal(depth as nat);
    let open = "<h"@ + d + " id=\""@ + spec_refname(title) + "\">"@;
    let close = "</h"@ + d + ">"@;
    let number = spec_section_number(kind, numbering);
    let t = spec_sanitize(title);
    let l = spec_section_link(spec_refname(title), link);
    let h = spec_section_html(depth, kind, title, numbering, SectionLinkPos::Hidden, link);
    assert(h =~= open + number + t + close);
    assert(h.subrange(h.len() - close.len() - t.len(), h.len() as int) =~= t + close);
    assert(h.subrange(0, h.len() - close.len()) =~= open + number + t);
    assert(spec_section_html(depth, kind, title, numbering, SectionLinkPos::After, link)
        =~= (open + number + t) + l + close);
    assert(h.subrange(0, open.len() as int) =~= open);
    assert(h.subrange(open.len() as int, h.len() as int) =~= number + t + close);
    assert(spec_section_html(depth, kind, title, numbering, SectionLinkPos::Before, link)
        =~= open + l + (number + t + close));
}

/// A numbered heading is the unnumbered one with its numbers (each followed
/// by a dot) and a space written right after the opening tag; whether a
/// section is listed in the table of contents does not change its heading.
pub proof fn law_section_number_position(
    depth: usize,
    numbered_kind: u8,
    unnumbered_kind: u8,
    title: Seq<char>,
    numbering: Seq<usize>,
    pos: SectionLinkPos,
    link: Seq<Seq<char>>,
)
    requires
        numbered_kind & NO_NUMBER != NO_NUMBER,
        unnumbered_kind & NO_NUMBER == NO_NUMBER,
    ensures
        ({
            let u = spec_section_html(depth, unnumbered_kind, title, numbering, pos, link);
            let open_len = ("<h"@ + spec_decimal(depth as nat) + " id=\""@ + spec_refname(title) + "\">"@).len() as int;
            let at = if pos == SectionLinkPos::Before { open_len + spec_section_link(spec_refname(title), link).len() } else { open_len };
            &&& u.len() >= at
            &&& spec_section_html(depth, numbered_kind, title, numbering, pos, link)
                == u.subrange(0, at) + spec_numbering(numbering) + " "@ + u.subrange(at, u.len() as int)
        }),
{
    let d = spec_decimal(depth as nat);
    let open = "<h"@ + d + " id=\""@ + spec_refname(title) + "\">"@;
    let close = "</h"@ + d + ">"@;
    let t = spec_sanitize(title);
    let l = spec_section_link(spec_refname(title), link);
    let num = spec_numbering(numbering) + " "@;
    let u = spec_section_html(depth, unnumbered_kind, title, numbering, pos, link);
    let n = spec_section_html(depth, numbered_kind, title, numbering, pos, link);
    assert(spec_section_number(unnumbered_kind, numbering) =~= Seq::<char>::empty());
    match pos {
        SectionLinkPos::Hidden => {
            assert(u =~= open + t + close);
            assert(u.subrange(0, open.len() as int) =~= open);
            assert(u.subrange(open.len() as int, u.len() as int) =~= t + close);
            assert(n =~= open + num + (t + close));
        },
        SectionLinkPos::After => {
            assert(u =~= open + t + l + close);
            assert(u.subrange(0, open.len() as int) =~= open);
            assert(u.subrange(open.len() as int, u.len() as int) =~= t + l + close);
            assert(n =~= open + num + (t + l + close));
        },
        SectionLinkPos::Before => {
            assert(u =~= open + l + t + close);
            assert(u.subrange(0, (open.len() + l.len()) as int) =~= open + l);
            assert(u.subrange((open.len() + l.len()) as int, u.len() as int) =~= t + close);
            assert(n =~= (open + l) + num + (t + close));
        },
    }
}

pub open spec fn strings_view(v: Seq<String>) -> Seq<Seq<char>> {
    v.map_values(|s: String| s@)
}

/// HTML of a reference to a section: its caption, or its title in
/// parentheses.
pub open spec fn spec_section_reference_html(title: Seq<char>, caption: Option<Seq<char>>) -> Seq<char> {
    let shown = match caption {
        Some(c) => c,
        None => "("@ + spec_sanitize(title) + ")"@,
    };
    "<a class=\"section-reference\" href=\"#"@ + spec_refname(title) + "\">"@ + shown + "</a>"@
}

fn push_numbering(out: &mut Vec<char>, numbering: &Vec<usize>)
    ensures
        final(out)@ == old(out)@ + spec_numbering(numbering@),
{
    let mut i: usize = 0;
    let ghost o = out@;
    assert(numbering@.subrange(0, 0) =~= Seq::<usize>::empty());
    while i < numbering.len()
        invariant
            0 <= i <= numbering@.len(),
            out@ == o + spec_numbering(numbering@.subrange(0, i as int)),
        decreases numbering@.len() - i,
    {
        proof { reveal_strlit("."); }
        let ghost before = out@;
        push_decimal(out, numbering[i]);
        push_str(out, ".");
        proof {
            let sub = numbering@.subrange(0, i + 1);
            assert(sub.drop_last() =~= numbering@.subrange(0, i as int));
            assert(out@ =~= o + spec_numbering(sub));
        }
        i += 1;
    }
    assert(numbering@.subrange(0, numbering@.len() as int) =~= numbering@);
}

impl Section {
    /// HTML of the heading, numbered with `numbering`, with the link that
    /// `style` places.
    pub fn compile(&self, numbering: &Vec<usize>, style: &SectionStyle) -> (r: String)
        requires
            style.link_pos != SectionLinkPos::Hidden ==> style.link@.len() >= 3,
        ensures
            r@ == spec_section_html(self.depth, self.kind, self.title@, numbering@, style.link_pos, strings_view(style.link@)),
    {
        proof {
            reveal_strlit("<h");
            reveal_strlit(" id=\"");
            reveal_strlit("\">");
            reveal_strlit("</h");
            reveal_strlit(">");
            reveal_strlit(" ");
            reveal_strlit("<a class=\"section-link\" href=\"#");
            reveal_strlit("</a>");
        }
        let title = str_to_chars(self.title.as_str());
        let rn = refname(title.as_slice());
        let mut number: Vec<char> = Vec::new();
        if self.kind & NO_NUMBER != NO_NUMBER {
            push_numbering(&mut number, numbering);
            push_str(&mut number, " ");
        }
        assert(number@ =~= spec_section_number(self.kind, numbering@));
        let mut link: Vec<char> = Vec::new();
        if style.link_pos != SectionLinkPos::Hidden {
            let l0 = sanitize(str_to_chars(style.link[0].as_str()).as_slice());
            let l1 = sanitize(str_to_chars(style.link[1].as_str()).as_slice());
            let l2 = sanitize(str_to_chars(style.link[2].as_str()).as_slice());
            push_chars(&mut link, l0.as_slice());
            push_str(&mut link, "<a class=\"section-link\" href=\"#");
            push_chars(&mut link, rn.as_slice());
            push_str(&mut link, "\">");
            push_chars(&mut link, l1.as_slice());
            push_str(&mut link, "</a>");
            push_chars(&mut link, l2.as_slice());
            assert(link@ =~= spec_section_link(spec_refname(self.title@), strings_view(style.link@)));
        }
        let shown = sanitize(title.as_slice());
        let mut out: Vec<char> = Vec::new();
        push_str(&mut out, "<h");
        push_decimal(&mut out, self.depth);
        push_str(&mut out, " id=\"");
        push_chars(&mut out, rn.as_slice());
        push_str(&mut out, "\">");
        match style.link_pos {
            SectionLinkPos::Hidden => {
                push_chars(&mut out, number.as_slice());
                push_chars(&mut out, shown.as_slice());
            },
            SectionLinkPos::After => {
                push_chars(&mut out, number.as_slice());
                push_chars(&mut out, shown.as_slice());
                push_chars(&mut out, link.as_slice());
            },
            SectionLinkPos::Before => {
                push_chars(&mut out, link.as_slice());
                push_chars(&mut out, number.as_slice());
                push_chars(&mut out, shown.as_slice());
            },
        }
        push_str(&mut out, "</h");
        push_decimal(&mut out, self.depth);
        push_str(&mut out, ">");
        assert(out@ =~= spec_section_html(self.depth, self.kind, self.title@, numbering@, style.link_pos, strings_view(style.link@)));
        chars_to_string(out.as_slice())
    }

    /// HTML of a reference to this section, shown as `caption` or as the
    /// section's title.
    pub fn compile_reference(&self, caption: Option<&String>) -> (r: String)
        ensures
            r@ == spec_section_reference_html(self.title@, match caption {
                Some(c) => Some(c@),
                None => None,
            }),
    {
        proof {
            reveal_strlit("(");
            reveal_strlit(")");
            reveal_strlit("<a class=\"section-reference\" href=\"#");
            reveal_strlit("\">");
            reveal_strlit("</a>");
        }
        let title = str_to_chars(self.title.as_str());
        let mut shown: Vec<char> = Vec::new();
        match caption {
            Some(c) => {
                push_str(&mut shown, c.as_str());
            },
            None => {
                push_str(&mut shown, "(");
                let t = sanitize(title.as_slice());
                push_chars(&mut shown, t.as_slice());
                push_str(&mut shown, ")");
            },
        }
        let rn = refname(title.as_slice());
        let mut out: Vec<char> = Vec::new();
        push_str(&mut out, "<a class=\"section-reference\" href=\"#");
        push_chars(&mut out, rn.as_slice());
        push_str(&mut out, "\">");
        push_chars(&mut out, shown.as_slice());
        push_str(&mut out, "</a>");
        proof {
            let cv = match caption {
                Some(c) => Some(c@),
                None => None::<Seq<char>>,
            };
            assert(out@ =~= spec_section_reference_html(self.title@, cv));
        }
        chars_to_string(out.as_slice())
    }
}

} // verus!
