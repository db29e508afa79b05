//! Links: `[display](url)`.
use vstd::prelude::*;

use crate::compile::{push_chars, push_str, sanitize, spec_sanitize};
use crate::document::{spec_report_kind, Element, Report, ReportCode, ReportKind, Token};
use crate::interop::{chars_to_string, str_to_chars};
use crate::scan::{esc_until, lemma_esc_until_range, spec_esc_until};
use crate::semantics::{spec_add_token, SemKind, SemToken, Semantics};
use crate::text::{escape_text, process_text, spec_escape_text, spec_process_text};

verus! {

/// A link: its display, parsed as paragraph content, and its url.
pub struct Link {
    pub location: Token,
    pub display: Vec<Element>,
    pub url: String,
}

/// The tokens `t` with those of link `m` added: the brackets of its
/// display, and its url with its parentheses.
pub open spec fn spec_link_tokens(t: Seq<SemToken>, m: LinkMatch) -> Seq<SemToken> {
    let t1 = spec_add_token(t, m.display.start - 1, m.display.start as int, SemKind::LinkDisplaySep);
    let t2 = spec_add_token(t1, m.display.end as int, m.display.end + 1, SemKind::LinkDisplaySep);
    let t3 = spec_add_token(t2, m.url.start - 1, m.url.start as int, SemKind::LinkUrlSep);
    let t4 = spec_add_token(t3, m.url.start as int, m.url.end as int, SemKind::LinkUrl);
    spec_add_token(t4, m.url.end as int, m.url.end + 1, SemKind::LinkUrlSep)
}

/// The ranges of a link.
#[derive(Clone, Copy, PartialEq, Eq, Debug, Structural)]
pub struct LinkMatch {
    pub whole: Token,
    pub display: Token,
    pub url: Token,
}

/// The link whose display scan resumes at `i`, for a match at `p`: the
/// display ends at a `](` after which the url is closed by `)`; when the url
/// is not closed, the display goes on past that `](`.
pub open spec fn spec_link_from(s: Seq<char>, p: int, i: int) -> Option<LinkMatch>
    decreases s.len() - i,
{
    if i < 0 || i > s.len() {
        None
    } else {
        match spec_esc_until(s, i, "]("@, false) {
            None => None,
            Some(k) => match spec_esc_until(s, k + 2, ")"@, false) {
                Some(e) => Some(LinkMatch {
                    whole: Token { start: p as usize, end: (e + 1) as usize },
                    display: Token { start: (p + 1) as usize, end: k as usize },
                    url: Token { start: (k + 2) as usize, end: e as usize },
                }),
                None => if k + 1 > i {
                    proof {
                        reveal_strlit("](");
                        lemma_esc_until_range(s, i, "]("@, false);
                    }
                    spec_link_from(s, p, k + 1)
                } else {
                    None
                },
            },
        }
    }
}

/// The match of `\[((?:\\.|[^\\])*?)\]\(((?:\\.|[^\\])*?)\)` at `p`.
pub open spec fn spec_link_at(s: Seq<char>, p: int) -> Option<LinkMatch> {
    if 0 <= p < s.len() && s[p] == '[' {
        spec_link_from(s, p, p + 1)
    } else {
        None
    }
}

pub open spec fn link_match_wf(s: Seq<char>, m: LinkMatch) -> bool {
    m.whole.start + 1 == m.display.start <= m.display.end && m.display.end + 2 == m.url.start
        <= m.url.end && m.url.end + 1 == m.whole.end <= s.len()
}

/// What the link `m` yields: the range of its display and its url, or the
/// error that refuses it.
pub open spec fn spec_link_result(s: Seq<char>, m: LinkMatch) -> Result<(Token, Seq<char>), ReportCode> {
    let display = s.subrange(m.display.start as int, m.display.end as int);
    let url = s.subrange(m.url.start as int, m.url.end as int);
    if display.len() == 0 || spec_escape_text('\\', "]("@, display).len() == 0 {
        Err(ReportCode::EmptyLinkName)
    } else if url.len() == 0 || spec_process_text(url, false, false).len() == 0 {
        Err(ReportCode::EmptyLinkUrl)
    } else {
        Ok((m.display, spec_process_text(url, false, false)))
    }
}

/// The rule for links.
pub struct LinkRule {}

impl LinkRule {
    pub fn new() -> (r: LinkRule) {
        LinkRule {  }
    }

    fn link_from(&self, s: &[char], p: usize, i: usize) -> (r: Option<LinkMatch>)
        requires
            p < i <= s@.len(),
        ensures
            r == spec_link_from(s@, p as int, i as int),
            r matches Some(m) ==> link_match_wf(s@, m) && m.whole.start == p,
    {
        proof { reveal_strlit("]("); reveal_strlit(")"); }
        let mid = str_to_chars("](");
        let close = str_to_chars(")");
        let mut j = i;
        while j <= s.len()
            invariant
                p < i <= j <= s@.len(),
                mid@ == "]("@,
                close@ == ")"@,
                spec_link_from(s@, p as int, i as int) == spec_link_from(s@, p as int, j as int),
            decreases s@.len() - j,
        {
            proof { reveal_strlit("]("); reveal_strlit(")"); }
            match esc_until(s, j, mid.as_slice(), false) {
                None => return None,
                Some(k) => {
                    proof { lemma_esc_until_range(s@, j as int, mid@, false); }
                    match esc_until(s, k + 2, close.as_slice(), false) {
                        Some(e) => {
                            proof { lemma_esc_until_range(s@, k + 2, close@, false); }
                            return Some(LinkMatch {
                                whole: Token { start: p, end: e + 1 },
                                display: Token { start: p + 1, end: k },
                                url: Token { start: k + 2, end: e },
                            });
                        },
                        None => {
                            j = k + 1;
                        },
                    }
                },
            }
        }
        None
    }

    /// The match of the link pattern at `p` (see `spec_link_at`).
    pub fn link_at(&self, s: &[char], p: usize) -> (r: Option<LinkMatch>)
        ensures
            r == spec_link_at(s@, p as int),
            r matches Some(m) ==> link_match_wf(s@, m) && m.whole.start == p,
    {
        if p < s.len() && s[p] == '[' {
            self.link_from(s, p, p + 1)
        } else {
            None
        }
    }

    /// The first link at or after `from`.
    pub fn find(&self, s: &[char], from: usize) -> (r: Option<LinkMatch>)
        ensures
            match r {
                Some(m) => from <= m.whole.start && spec_link_at(s@, m.whole.start as int) == Some(m)
                    && link_match_wf(s@, m)
                    && forall|q: int| from <= q < m.whole.start ==> spec_link_at(s@, q) is None,
                None => forall|q: int| from <= q ==> spec_link_at(s@, q) is None,
            },
    {
        let mut p = from;
        while p < s.len()
            invariant
                from <= p,
                forall|q: int| from <= q < p ==> spec_link_at(s@, q) is None,
            decreases s@.len() - p,
        {
            match self.link_at(s, p) {
                Some(m) => return Some(m),
                None => {},
            }
            p += 1;
        }
        None
    }

    /// Checks the link `m`: gives the range of its display and its url, or
    /// the report that refuses it.
    pub fn on_match(&self, s: &[char], m: LinkMatch, sems: &mut Semantics) -> (r: Result<(Token, String), Report>)
        requires
            link_match_wf(s@, m),
            old(sems).wf(),
        ensures
            final(sems).wf(),
            match r {
                Ok((d, u)) => spec_link_result(s@, m) == Ok::<(Token, Seq<char>), ReportCode>((d, u@)),
                Err(rep) => spec_link_result(s@, m) == Err::<(Token, Seq<char>), ReportCode>(rep.code) && rep.kind == spec_report_kind(rep.code)
                    && rep.span == (if rep.code == ReportCode::EmptyLinkName { m.display } else { m.url }),
            },
            r is Ok ==> final(sems).tokens@ == spec_link_tokens(old(sems).tokens@, m),
            r is Err ==> final(sems).tokens@ == old(sems).tokens@,
    {
        proof { reveal_strlit("]("); }
        let mid = str_to_chars("](");
        if m.display.start == m.display.end {
            return Err(Report { kind: ReportKind::Error, code: ReportCode::EmptyLinkName, span: m.display });
        }
        let disp = escape_text('\\', mid.as_slice(), s, m.display.start, m.display.end);
        if disp.len() == 0 {
            return Err(Report { kind: ReportKind::Error, code: ReportCode::EmptyLinkName, span: m.display });
        }
        if m.url.start == m.url.end {
            return Err(Report { kind: ReportKind::Error, code: ReportCode::EmptyLinkUrl, span: m.url });
        }
        let url = process_text(s, m.url.start, m.url.end, false, false);
        if url.len() == 0 {
            return Err(Report { kind: ReportKind::Error, code: ReportCode::EmptyLinkUrl, span: m.url });
        }
        sems.add(m.display.start - 1, m.display.start, SemKind::LinkDisplaySep);
        sems.add(m.display.end, m.display.end + 1, SemKind::LinkDisplaySep);
        sems.add(m.url.start - 1, m.url.start, SemKind::LinkUrlSep);
        sems.add(m.url.start, m.url.end, SemKind::LinkUrl);
        sems.add(m.url.end, m.url.end + 1, SemKind::LinkUrlSep);
        Ok((m.display, chars_to_string(url.as_slice())))
    }
}

impl Link {
    /// HTML of the link whose display gives `display`.
    pub fn compile(&self, display: &str) -> (r: String)
        ensures
            r@ == "<a href=\""@ + spec_sanitize(self.url@) + "\">"@ + display@ + "</a>"@,
    {
        proof { reveal_strlit("<a href=\""); reveal_strlit("\">"); reveal_strlit("</a>"); }
        let url = sanitize(str_to_chars(self.url.as_str()).as_slice());
        let mut out: Vec<char> = Vec::new();
        push_str(&mut out, "<a href=\"");
        push_chars(&mut out, url.as_slice());
        push_str(&mut out, "\">");
        push_str(&mut out, display);
        push_str(&mut out, "</a>");
        chars_to_string(out.as_slice())
    }
}

} // verus!
