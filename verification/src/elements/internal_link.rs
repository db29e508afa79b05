//! Internal links: `&{refname}` or `&{refname}[display]`, a link to a
//! reference of the project, shown as its name or as the given display.
use vstd::prelude::*;

use crate::document::{spec_report_kind, Element, Report, ReportCode, ReportKind, Token};
use crate::elements::reference::{spec_refname_char, spec_validate_refname, validate_refname};
use crate::compile::push_str;
use crate::interop::chars_to_string;
use crate::scan::{find_char, lemma_find_char, spec_find_char};
use crate::semantics::{spec_add_token, SemKind, SemToken, Semantics};
use crate::text::{slice_to_vec, spec_starts_at, spec_trim, starts_at, trim_bounds};

verus! {

/// The name of a reference: `name` in the current unit, or `unit#name` in
/// another one (`#name`: in any unit).
pub enum Refname {
    Internal(String),
    External(String, String),
}

/// Mathematical form of a reference name.
pub enum RefnameView {
    Internal(Seq<char>),
    External(Seq<char>, Seq<char>),
}

pub open spec fn refname_view(r: Refname) -> RefnameView {
    match r {
        Refname::Internal(n) => RefnameView::Internal(n@),
        Refname::External(u, n) => RefnameView::External(u@, n@),
    }
}

/// The reference named `link`: before the first `#` the unit, after it the
/// name, which must be a valid reference name.
pub open spec fn spec_refname_from(link: Seq<char>) -> Option<RefnameView> {
    match spec_find_char(link, 0, link.len() as int, '#') {
        Some(k) => match spec_validate_refname(link.subrange(k + 1, link.len() as int)) {
            Some(n) => Some(RefnameView::External(link.subrange(0, k), n)),
            None => None,
        },
        None => match spec_validate_refname(link) {
            Some(n) => Some(RefnameView::Internal(n)),
            None => None,
        },
    }
}

/// The text of a reference name: `name`, or `unit#name`.
pub open spec fn spec_refname_text(r: RefnameView) -> Seq<char> {
    match r {
        RefnameView::Internal(n) => n,
        RefnameView::External(u, n) => u + seq!['#'] + n,
    }
}

/// Whether the name of `r` is valid as it stands (trimmed, without a
/// character that names refuse), and the unit of a name in another unit
/// holds no `#`.
pub open spec fn spec_refname_readable(r: RefnameView) -> bool {
    match r {
        RefnameView::Internal(n) => spec_validate_refname(n) == Some(n),
        RefnameView::External(u, n) => spec_validate_refname(n) == Some(n)
            && forall|i: int| 0 <= i < u.len() ==> u[i] != '#',
    }
}

/// Reading back the text of a reference name gives the name, for every name
/// that is valid as it stands (with, in another unit, a unit without `#`).
pub proof fn law_refname_text_roundtrip(r: RefnameView)
    requires
        spec_refname_readable(r),
    ensures
        spec_refname_from(spec_refname_text(r)) == Some(r),
{
    let t = spec_refname_text(r);
    lemma_find_char(t, 0, t.len() as int, '#');
    match r {
        RefnameView::Internal(n) => {
            assert forall|i: int| 0 <= i < n.len() implies n[i] != '#' by {
                assert(spec_refname_char(spec_trim(n)[i]));
            }
        },
        RefnameView::External(u, n) => {
            let k = u.len() as int;
            assert(t[k] == '#');
            assert(t.subrange(0, k) =~= u);
            assert(t.subrange(k + 1, t.len() as int) =~= n);
            match spec_find_char(t, 0, t.len() as int, '#') {
                Some(j) => {
                    if j < k {
                        assert(t[j] == u[j]);
                    }
                    assert(j == k);
                },
                None => {},
            }
        },
    }
}

/// See `spec_refname_from`.
pub fn refname_from(link: &[char]) -> (r: Option<Refname>)
    ensures
        match r {
            Some(x) => spec_refname_from(link@) == Some(refname_view(x)),
            None => spec_refname_from(link@) is None,
        },
{
    let sep = find_char(link, 0, link.len(), '#');
    proof { lemma_find_char(link@, 0, link@.len() as int, '#'); }
    match sep {
        Some(k) => {
            let after = slice_to_vec(link, k + 1, link.len());
            match validate_refname(after.as_slice()) {
                Some(n) => {
                    let unit = slice_to_vec(link, 0, k);
                    Some(Refname::External(chars_to_string(unit.as_slice()), chars_to_string(n.as_slice())))
                },
                None => None,
            }
        },
        None => match validate_refname(link) {
            Some(n) => Some(Refname::Internal(chars_to_string(n.as_slice()))),
            None => None,
        },
    }
}

/// A link to a reference.
pub struct InternalLink {
    pub location: Token,
    pub refname: Refname,
    /// The display, parsed as paragraph content.
    pub display: Vec<Element>,
}

/// The ranges of an internal link.
#[derive(Clone, Copy, PartialEq, Eq, Debug, Structural)]
pub struct InternalLinkMatch {
    pub whole: Token,
    /// The name, between the braces.
    pub link: Token,
    /// Whether the closing `}` was found.
    pub closed: bool,
    /// The display, between the brackets.
    pub display: Option<Token>,
    /// Whether the display's closing `]` was found.
    pub display_closed: bool,
}

/// End of the name that starts at `i`: the first `}`, `\r` or `\n`, or the
/// end of the text.
pub open spec fn spec_name_end(s: Seq<char>, i: int) -> int
    decreases s.len() - i,
{
    if 0 <= i < s.len() && s[i] != '}' && s[i] != '\r' && s[i] != '\n' {
        spec_name_end(s, i + 1)
    } else {
        i
    }
}

/// End of the display that starts at `i`: characters other than `]` and
/// `\`, or `\` and the character after it (not a newline), as many as there
/// are.
pub open spec fn spec_display_end(s: Seq<char>, i: int) -> int
    decreases s.len() - i,
{
    if 0 <= i < s.len() && s[i] != ']' && s[i] != '\\' {
        spec_display_end(s, i + 1)
    } else if 0 <= i && i + 1 < s.len() && s[i] == '\\' && s[i + 1] != '\n' {
        spec_display_end(s, i + 2)
    } else {
        i
    }
}

proof fn lemma_name_end(s: Seq<char>, i: int)
    requires
        0 <= i <= s.len(),
    ensures
        i <= spec_name_end(s, i) <= s.len(),
    decreases s.len() - i,
{
    if i < s.len() && s[i] != '}' && s[i] != '\r' && s[i] != '\n' {
        lemma_name_end(s, i + 1);
    }
}

proof fn lemma_display_end(s: Seq<char>, i: int)
    requires
        0 <= i <= s.len(),
    ensures
        i <= spec_display_end(s, i) <= s.len(),
    decreases s.len() - i,
{
    if i < s.len() && s[i] != ']' && s[i] != '\\' {
        lemma_display_end(s, i + 1);
    } else if i + 1 < s.len() && s[i] == '\\' && s[i + 1] != '\n' {
        lemma_display_end(s, i + 2);
    }
}

/// The match at `p` of
/// `&\{([^\}\r\n]*)(\})?(?:(\[)((?:[^]\\]|\\.)*)(\])?)?`: greedy name and
/// display, each with its optional closing delimiter.
pub open spec fn spec_internal_link_at(s: Seq<char>, p: int) -> Option<InternalLinkMatch> {
    if !spec_starts_at(s, p, "&{"@) {
        None
    } else {
        let e = spec_name_end(s, p + 2);
        let link = Token { start: (p + 2) as usize, end: e as usize };
        if !(e < s.len() && s[e] == '}') {
            Some(InternalLinkMatch { whole: Token { start: p as usize, end: e as usize }, link, closed: false, display: None, display_closed: false })
        } else if e + 1 < s.len() && s[e + 1] == '[' {
            let d = spec_display_end(s, e + 2);
            let dclosed = d < s.len() && s[d] == ']';
            Some(InternalLinkMatch {
                whole: Token { start: p as usize, end: (if dclosed { d + 1 } else { d }) as usize },
                link,
                closed: true,
                display: Some(Token { start: (e + 2) as usize, end: d as usize }),
                display_closed: dclosed,
            })
        } else {
            Some(InternalLinkMatch { whole: Token { start: p as usize, end: (e + 1) as usize }, link, closed: true, display: None, display_closed: false })
        }
    }
}

pub open spec fn internal_link_match_wf(s: Seq<char>, m: InternalLinkMatch) -> bool {
    &&& m.whole.start + 2 == m.link.start <= m.link.end <= m.whole.end <= s.len()
    &&& m.closed ==> m.link.end < s.len() && m.link.end + 1 <= m.whole.end
    &&& m.display matches Some(d) ==> m.closed && m.link.end + 2 == d.start <= d.end <= m.whole.end
        && (m.display_closed ==> d.end < s.len())
}

/// What an internal link yields: its reference name and the range of its
/// display, if one is given; or the error that refuses it.
pub open spec fn spec_internal_link_result(s: Seq<char>, m: InternalLinkMatch) -> Result<(RefnameView, Option<Token>), ReportCode> {
    if !m.closed {
        Err(ReportCode::UnterminatedInternalLink)
    } else {
        let name = spec_trim(s.subrange(m.link.start as int, m.link.end as int));
        if name.len() == 0 {
            Err(ReportCode::EmptyInternalLink)
        } else {
            match spec_refname_from(name) {
                None => Err(ReportCode::InvalidInternalLink),
                Some(r) => match m.display {
                    Some(d) => if m.display_closed {
                        Ok((r, Some(d)))
                    } else {
                        Err(ReportCode::UnterminatedInternalLinkDisplay)
                    },
                    None => Ok((r, None)),
                },
            }
        }
    }
}

/// The rule for internal links.
pub struct InternalLinkRule {}

impl InternalLinkRule {
    pub fn new() -> (r: InternalLinkRule) {
        InternalLinkRule {  }
    }

    /// The match at `p` (see `spec_internal_link_at`).
    pub fn link_at(&self, s: &[char], p: usize) -> (r: Option<InternalLinkMatch>)
        ensures
            r == spec_internal_link_at(s@, p as int),
            r matches Some(m) ==> internal_link_match_wf(s@, m) && m.whole.start == p,
    {
        proof { reveal_strlit("&{"); }
        let n = s.len();
        if p > n || n - p < 2 || s[p] != '&' || s[p + 1] != '{' {
            proof {
                if spec_starts_at(s@, p as int, "&{"@) {
                    assert(s@.subrange(p as int, p + 2)[0] == '&');
                    assert(s@.subrange(p as int, p + 2)[1] == '{');
                }
            }
            return None;
        }
        assert(s@.subrange(p as int, p + 2) =~= "&{"@);
        let mut e = p + 2;
        proof { lemma_name_end(s@, e as int); }
        while e < n && s[e] != '}' && s[e] != '\r' && s[e] != '\n'
            invariant
                p + 2 <= e <= n == s@.len(),
                spec_name_end(s@, p + 2) == spec_name_end(s@, e as int),
            decreases n - e,
        {
            e += 1;
        }
        let link = Token { start: p + 2, end: e };
        if !(e < n && s[e] == '}') {
            return Some(InternalLinkMatch { whole: Token { start: p, end: e }, link, closed: false, display: None, display_closed: false });
        }
        if e + 1 < n && s[e + 1] == '[' {
            let mut d = e + 2;
            proof { lemma_display_end(s@, d as int); }
            loop
                invariant
                    e + 2 <= d <= n == s@.len(),
                    spec_display_end(s@, e + 2) == spec_display_end(s@, d as int),
                ensures
                    spec_display_end(s@, e + 2) == d as int,
                    e + 2 <= d <= n,
                decreases n - d,
            {
                if d < n && s[d] != ']' && s[d] != '\\' {
                    d += 1;
                } else if d < n && d + 1 < n && s[d] == '\\' && s[d + 1] != '\n' {
                    d += 2;
                } else {
                    break;
                }
            }
            let dclosed = d < n && s[d] == ']';
            let end = if dclosed { d + 1 } else { d };
            Some(InternalLinkMatch {
                whole: Token { start: p, end },
                link,
                closed: true,
                display: Some(Token { start: e + 2, end: d }),
                display_closed: dclosed,
            })
        } else {
            Some(InternalLinkMatch { whole: Token { start: p, end: e + 1 }, link, closed: true, display: None, display_closed: false })
        }
    }

    /// The first internal link at or after `from`.
    pub fn find(&self, s: &[char], from: usize) -> (r: Option<InternalLinkMatch>)
        ensures
            match r {
                Some(m) => from <= m.whole.start && spec_internal_link_at(s@, m.whole.start as int) == Some(m)
                    && internal_link_match_wf(s@, m)
                    && forall|q: int| from <= q < m.whole.start ==> spec_internal_link_at(s@, q) is None,
                None => forall|q: int| from <= q ==> spec_internal_link_at(s@, q) is None,
            },
    {
        proof { reveal_strlit("&{"); }
        let mut p = from;
        while p < s.len()
            invariant
                from <= p,
                forall|q: int| from <= q < p ==> spec_internal_link_at(s@, q) is None,
            decreases s@.len() - p,
        {
            match self.link_at(s, p) {
                Some(m) => return Some(m),
                None => {},
            }
            p += 1;
        }
        None
    }

    /// Checks the internal link `m`: gives its reference name and the range
    /// of its display, or the report that refuses it.
    pub fn on_match(&self, s: &[char], m: InternalLinkMatch, sems: &mut Semantics) -> (r: Result<(Refname, Option<Token>), Report>)
        requires
            internal_link_match_wf(s@, m),
            old(sems).wf(),
        ensures
            final(sems).wf(),
            match r {
                Ok((name, d)) => spec_internal_link_result(s@, m) == Ok::<(RefnameView, Option<Token>), ReportCode>(
                    (refname_view(name), d),
                ),
                Err(rep) => spec_internal_link_result(s@, m) == Err::<(RefnameView, Option<Token>), ReportCode>(rep.code) && rep.kind == spec_report_kind(rep.code)
                    && rep.span == (if rep.code == ReportCode::UnterminatedInternalLink {
                        Token { start: m.link.end, end: if m.link.end < s@.len() { (m.link.end + 1) as usize } else { m.link.end } }
                    } else if rep.code == ReportCode::UnterminatedInternalLinkDisplay {
                        m.display->0
                    } else {
                        m.link
                    }),
            },
            r is Ok || (r matches Err(rep) && rep.code == ReportCode::UnterminatedInternalLinkDisplay)
                ==> final(sems).tokens@ == spec_internal_link_tokens(old(sems).tokens@, m, r is Ok),
            r matches Err(rep) && rep.code != ReportCode::UnterminatedInternalLinkDisplay
                ==> final(sems).tokens@ == old(sems).tokens@,
    {
        let n = s.len();
        if !m.closed {
            let end = if m.link.end < n { m.link.end + 1 } else { m.link.end };
            return Err(Report {
                kind: ReportKind::Error,
                code: ReportCode::UnterminatedInternalLink,
                span: Token { start: m.link.end, end },
            });
        }
        let (a, b) = trim_bounds(s, m.link.start, m.link.end);
        if a == b {
            return Err(Report { kind: ReportKind::Error, code: ReportCode::EmptyInternalLink, span: m.link });
        }
        let name = slice_to_vec(s, a, b);
        let refname = match refname_from(name.as_slice()) {
            None => {
                return Err(Report { kind: ReportKind::Error, code: ReportCode::InvalidInternalLink, span: m.link });
            },
            Some(r) => r,
        };
        sems.add(m.whole.start, m.whole.start + 2, SemKind::InternalLinkRefSep);
        sems.add(m.link.start, m.link.end, SemKind::InternalLinkRef);
        sems.add(m.link.end, m.link.end + 1, SemKind::InternalLinkRefSep);
        match m.display {
            None => Ok((refname, None)),
            Some(d) => if m.display_closed {
                sems.add(d.start - 1, d.start, SemKind::InternalLinkDisplaySep);
                sems.add(d.end, d.end + 1, SemKind::InternalLinkDisplaySep);
                Ok((refname, Some(d)))
            } else {
                Err(Report { kind: ReportKind::Error, code: ReportCode::UnterminatedInternalLinkDisplay, span: d })
            },
        }
    }
}

/// The tokens `t` with those of internal link `m` added: the brackets and
/// the name of the reference, then, for a display that is closed
/// (`closed`), its brackets.
pub open spec fn spec_internal_link_tokens(t: Seq<SemToken>, m: InternalLinkMatch, closed: bool) -> Seq<SemToken> {
    let t1 = spec_add_token(t, m.whole.start as int, m.whole.start + 2, SemKind::InternalLinkRefSep);
    let t2 = spec_add_token(t1, m.link.start as int, m.link.end as int, SemKind::InternalLinkRef);
    let t3 = spec_add_token(t2, m.link.end as int, m.link.end + 1, SemKind::InternalLinkRefSep);
    match m.display {
        Some(d) => if closed {
            let a = spec_add_token(t3, d.start - 1, d.start as int, SemKind::InternalLinkDisplaySep);
            spec_add_token(a, d.end as int, d.end + 1, SemKind::InternalLinkDisplaySep)
        } else {
            t3
        },
        None => t3,
    }
}

impl InternalLink {
    /// HTML of the link, once the reference it names has been resolved to
    /// the address `link`, around the compiled `display`. The address is
    /// written as the resolution gave it.
    pub fn compile(&self, link: &str, display: &str) -> (r: String)
        ensures
            r@ == "<a href=\""@ + link@ + "\">"@ + display@ + "</a>"@,
    {
        proof { reveal_strlit("<a href=\""); reveal_strlit("\">"); reveal_strlit("</a>"); }
        let mut out: Vec<char> = Vec::new();
        push_str(&mut out, "<a href=\"");
        push_str(&mut out, link);
        push_str(&mut out, "\">");
        push_str(&mut out, display);
        push_str(&mut out, "</a>");
        chars_to_string(out.as_slice())
    }
}

impl Refname {
    /// The name as written: `name`, or `unit#name`.
    pub fn to_text(&self) -> (r: String)
        ensures
            r@ == spec_refname_text(refname_view(*self)),
    {
        match self {
            Refname::Internal(n) => n.clone(),
            Refname::External(u, n) => {
                let mut v = crate::interop::str_to_chars(u.as_str());
                v.push('#');
                let mut w = crate::interop::str_to_chars(n.as_str());
                v.append(&mut w);
                chars_to_string(v.as_slice())
            },
        }
    }
}

} // verus!
