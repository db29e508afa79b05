//! LaTeX: `$|...|$` for a block of TeX, `$...$` for inline math. The TeX
//! is rendered outside the library; the library builds the document that is
//! handed to the renderer and the key under which its result is cached.
use vstd::prelude::*;

use crypto::digest::Digest;

use crate::compile::{push_chars, push_str, sanitize, spec_sanitize};
use crate::document::{spec_report_kind, ElemKind, Report, ReportCode, ReportKind, Token};
use crate::interop::{chars_to_string, str_to_chars};
use crate::properties::{
    entries_view, lookup, parse_properties, schema_view, spec_lookup, spec_parse_properties,
    PropertySpec,
};
use crate::scan::{esc_until, find_char, lemma_esc_until_range, lemma_find_char, spec_esc_until, spec_find_char};
use crate::semantics::{spec_add_token, SemKind, SemToken, Semantics};
use crate::text::{escape_text, slice_to_vec, spec_escape_text, spec_starts_at, starts_at};

verus! {

/// How a LaTeX element is laid out.
#[derive(Clone, Copy, PartialEq, Eq, Debug, Structural)]
pub enum TexKind {
    Block,
    Inline,
}

/// The kind named `s`: `inline` or `block`.
pub open spec fn spec_tex_kind_from(s: Seq<char>) -> Option<TexKind> {
    if s == "inline"@ {
        Some(TexKind::Inline)
    } else if s == "block"@ {
        Some(TexKind::Block)
    } else {
        None
    }
}

impl TexKind {
    /// The kind named `s` (see `spec_tex_kind_from`).
    pub fn from_str(s: &[char]) -> (r: Option<TexKind>)
        ensures
            r == spec_tex_kind_from(s@),
    {
        proof { reveal_strlit("inline"); reveal_strlit("block"); }
        if crate::text::eq_str(s, "inline") {
            Some(TexKind::Inline)
        } else if crate::text::eq_str(s, "block") {
            Some(TexKind::Block)
        } else {
            None
        }
    }

    /// The layout of an element of this kind.
    pub fn elem_kind(&self) -> (r: ElemKind)
        ensures
            r == (match *self {
                TexKind::Block => ElemKind::Block,
                TexKind::Inline => ElemKind::Inline,
            }),
    {
        match self {
            TexKind::Block => ElemKind::Block,
            TexKind::Inline => ElemKind::Inline,
        }
    }
}

/// A LaTeX element.
pub struct Latex {
    pub location: Token,
    /// Written `$...$`: the TeX is math.
    pub mathmode: bool,
    pub kind: TexKind,
    /// The TeX environment whose settings render the element.
    pub env: String,
    pub tex: String,
    pub caption: Option<String>,
}

/// The delimiters of pattern `index`: `$|`/`|$` (0) or `$`/`$` (1).
pub open spec fn spec_tex_open(index: usize) -> Seq<char> {
    if index == 0 { "$|"@ } else { "$"@ }
}

pub open spec fn spec_tex_close(index: usize) -> Seq<char> {
    if index == 0 { "|$"@ } else { "$"@ }
}

/// The ranges of a LaTeX match.
#[derive(Clone, Copy, PartialEq, Eq, Debug, Structural)]
pub struct LatexMatch {
    pub index: usize,
    pub whole: Token,
    pub props: Option<Token>,
    /// The TeX, when the closing delimiter was found.
    pub content: Option<Token>,
}

/// The match at `p` of pattern `index`:
/// `\$\|(?:\[((?:\\.|[^\\])*?)\])?(?:((?:\\.|[^\\])*?)\|\$)?` (0) or
/// `\$(?:\[((?:\\.|[^\\])*?)\])?(?:((?:\\.|[^\\])*?)\$)?` (1). Both
/// optional groups are tried first and the lazy spans stop at the first
/// unescaped delimiter.
pub open spec fn spec_tex_at(s: Seq<char>, index: usize, p: int) -> Option<LatexMatch> {
    let open = spec_tex_open(index);
    let close = spec_tex_close(index);
    if !spec_starts_at(s, p, open) {
        None
    } else {
        let i = p + open.len();
        let props_end = if i < s.len() && s[i] == '[' { spec_esc_until(s, i + 1, "]"@, false) } else { None };
        let c0 = match props_end {
            Some(k) => k + 1,
            None => i,
        };
        let props = match props_end {
            Some(k) => Some(Token { start: (i + 1) as usize, end: k as usize }),
            None => None,
        };
        match spec_esc_until(s, c0, close, false) {
            Some(k) => Some(LatexMatch {
                index,
                whole: Token { start: p as usize, end: (k + close.len()) as usize },
                props,
                content: Some(Token { start: c0 as usize, end: k as usize }),
            }),
            None => Some(LatexMatch {
                index,
                whole: Token { start: p as usize, end: c0 as usize },
                props,
                content: None,
            }),
        }
    }
}

/// The LaTeX match at `p`: `$|...|$` before `$...$`.
pub open spec fn spec_latex_at(s: Seq<char>, p: int) -> Option<LatexMatch> {
    if spec_tex_at(s, 0, p) is Some {
        spec_tex_at(s, 0, p)
    } else {
        spec_tex_at(s, 1, p)
    }
}

pub open spec fn latex_match_wf(s: Seq<char>, m: LatexMatch) -> bool {
    &&& m.index < 2
    &&& m.whole.start + spec_tex_open(m.index).len() <= m.whole.end <= s.len()
    &&& m.props matches Some(p) ==> m.whole.start + spec_tex_open(m.index).len() + 1 == p.start
        && p.start <= p.end && p.end + 1 <= m.whole.end
    &&& m.content matches Some(c) ==> m.whole.start + spec_tex_open(m.index).len() <= c.start <= c.end
        && c.end + spec_tex_close(m.index).len() == m.whole.end
    &&& m.content matches Some(c) ==> (m.props matches Some(p) ==> p.end + 1 == c.start)
}

/// The properties of LaTeX elements: `env` (`main` by default), `kind` and
/// `caption`.
pub open spec fn latex_schema() -> Seq<(Seq<char>, bool, Option<Seq<char>>)> {
    seq![("env"@, true, Some("main"@)), ("kind"@, false, None), ("caption"@, false, None)]
}

/// The tokens `t` with those of formula `m` added: its delimiters, the
/// brackets of its properties, and its content.
pub open spec fn spec_latex_tokens(t: Seq<SemToken>, m: LatexMatch) -> Seq<SemToken> {
    let seplen: int = if m.index == 0 { 2 } else { 1 };
    let c = m.content->0;
    let t1 = spec_add_token(t, m.whole.start as int, m.whole.start + seplen, SemKind::TexSep);
    let t2 = match m.props {
        Some(p) => {
            let a = spec_add_token(t1, p.start - 1, p.start as int, SemKind::TexPropsSep);
            spec_add_token(a, p.end as int, p.end + 1, SemKind::TexPropsSep)
        },
        None => t1,
    };
    let t3 = spec_add_token(t2, c.start as int, c.end as int, SemKind::TexContent);
    spec_add_token(t3, m.whole.end - seplen, m.whole.end as int, SemKind::TexSep)
}

/// What a LaTeX match yields: its kind, environment, TeX and caption; or the
/// error that refuses it. An empty TeX is reported but kept.
pub open spec fn spec_latex_result(s: Seq<char>, m: LatexMatch) -> Result<(TexKind, Seq<char>, Seq<char>, Option<Seq<char>>), ReportCode> {
    match m.content {
        None => Err(ReportCode::UnterminatedTex),
        Some(c) => {
            let tex = spec_escape_text('\\', spec_tex_close(m.index), s.subrange(c.start as int, c.end as int));
            let props = match m.props {
                None => Seq::<char>::empty(),
                Some(p) => spec_escape_text('\\', "]"@, s.subrange(p.start as int, p.end as int)),
            };
            match spec_parse_properties(props, latex_schema()) {
                Err(_) => Err(ReportCode::InvalidTexProperties),
                Ok(entries) => {
                    let kind = match spec_lookup(entries, "kind"@) {
                        None => Some(if m.index == 1 { TexKind::Inline } else { TexKind::Block }),
                        Some(k) => spec_tex_kind_from(k),
                    };
                    match kind {
                        None => Err(ReportCode::InvalidTexKind),
                        Some(kind) => match spec_lookup(entries, "env"@) {
                            None => Err(ReportCode::InvalidTexProperties),
                            Some(env) => Ok((kind, env, tex, spec_lookup(entries, "caption"@))),
                        },
                    }
                },
            }
        },
    }
}

pub open spec fn opt_string_view(o: Option<String>) -> Option<Seq<char>> {
    match o {
        Some(s) => Some(s@),
        None => None,
    }
}

/// The rule for LaTeX.
pub struct LatexRule {
    pub properties: Vec<PropertySpec>,
}

impl LatexRule {
    pub fn new() -> (r: LatexRule)
        ensures
            schema_view(r.properties@) == latex_schema(),
    {
        let mut properties: Vec<PropertySpec> = Vec::new();
        properties.push(PropertySpec { name: str_to_chars("env"), required: true, default: Some(str_to_chars("main")) });
        properties.push(PropertySpec { name: str_to_chars("kind"), required: false, default: None });
        properties.push(PropertySpec { name: str_to_chars("caption"), required: false, default: None });
        let r = LatexRule { properties };
        assert(schema_view(r.properties@) =~= latex_schema());
        r
    }

    /// The match of pattern `index` at `p` (see `spec_tex_at`).
    pub fn tex_at(&self, s: &[char], index: usize, p: usize) -> (r: Option<LatexMatch>)
        requires
            index < 2,
        ensures
            r == spec_tex_at(s@, index, p as int),
            r matches Some(m) ==> latex_match_wf(s@, m) && m.whole.start == p,
    {
        proof { reveal_strlit("$|"); reveal_strlit("|$"); reveal_strlit("$"); reveal_strlit("]"); }
        let open = if index == 0 { str_to_chars("$|") } else { str_to_chars("$") };
        let close = if index == 0 { str_to_chars("|$") } else { str_to_chars("$") };
        let bracket = str_to_chars("]");
        let open_s = open.as_slice();
        if !starts_at(s, p, open_s) {
            return None;
        }
        let n = s.len();
        assert(p + open_s@.len() <= n);
        let i = p + open_s.len();
        let mut props_end: Option<usize> = None;
        if i < s.len() && s[i] == '[' {
            props_end = esc_until(s, i + 1, bracket.as_slice(), false);
            proof { lemma_esc_until_range(s@, i + 1, bracket@, false); }
        }
        let c0 = match props_end {
            Some(k) => k + 1,
            None => i,
        };
        let props = match props_end {
            Some(k) => Some(Token { start: i + 1, end: k }),
            None => None,
        };
        proof { lemma_esc_until_range(s@, c0 as int, close@, false); }
        match esc_until(s, c0, close.as_slice(), false) {
            Some(k) => Some(LatexMatch {
                index,
                whole: Token { start: p, end: k + close.len() },
                props,
                content: Some(Token { start: c0, end: k }),
            }),
            None => Some(LatexMatch { index, whole: Token { start: p, end: c0 }, props, content: None }),
        }
    }

    /// The LaTeX match at `p` (see `spec_latex_at`).
    pub fn latex_at(&self, s: &[char], p: usize) -> (r: Option<LatexMatch>)
        ensures
            r == spec_latex_at(s@, p as int),
            r matches Some(m) ==> latex_match_wf(s@, m) && m.whole.start == p,
    {
        match self.tex_at(s, 0, p) {
            Some(m) => Some(m),
            None => self.tex_at(s, 1, p),
        }
    }

    /// The first LaTeX match at or after `from`.
    pub fn find(&self, s: &[char], from: usize) -> (r: Option<LatexMatch>)
        ensures
            match r {
                Some(m) => from <= m.whole.start && spec_latex_at(s@, m.whole.start as int) == Some(m)
                    && latex_match_wf(s@, m)
                    && forall|q: int| from <= q < m.whole.start ==> spec_latex_at(s@, q) is None,
                None => forall|q: int| from <= q ==> spec_latex_at(s@, q) is None,
            },
    {
        proof { reveal_strlit("$|"); reveal_strlit("$"); }
        let mut p = from;
        while p < s.len()
            invariant
                from <= p,
                forall|q: int| from <= q < p ==> spec_latex_at(s@, q) is None,
            decreases s@.len() - p,
        {
            match self.latex_at(s, p) {
                Some(m) => return Some(m),
                None => {},
            }
            p += 1;
        }
        None
    }

    /// Builds the LaTeX element of `m`, with the report of an empty TeX if
    /// it is empty; or the report that refuses it.
    pub fn on_match(&self, s: &[char], m: LatexMatch, sems: &mut Semantics) -> (r: Result<(Latex, Option<Report>), Report>)
        requires
            latex_match_wf(s@, m),
            schema_view(self.properties@) == latex_schema(),
            old(sems).wf(),
        ensures
            final(sems).wf(),
            match r {
                Ok((l, w)) => spec_latex_result(s@, m) == Ok::<(TexKind, Seq<char>, Seq<char>, Option<Seq<char>>), ReportCode>(
                    (l.kind, l.env@, l.tex@, opt_string_view(l.caption)),
                ) && l.location == m.whole && l.mathmode == (m.index == 1)
                    && (w is Some <==> l.tex@.len() == 0)
                    && (w matches Some(rep) ==> rep.code == ReportCode::EmptyTex && rep.kind == ReportKind::Error
                    && m.content == Some(rep.span)),
                Err(rep) => spec_latex_result(s@, m) == Err::<(TexKind, Seq<char>, Seq<char>, Option<Seq<char>>), ReportCode>(rep.code) && rep.kind == spec_report_kind(rep.code)
                    && rep.span == m.whole,
            },
            r is Ok ==> final(sems).tokens@ == spec_latex_tokens(old(sems).tokens@, m),
            r is Err ==> final(sems).tokens@ == old(sems).tokens@,
    {
        let c = match m.content {
            None => {
                return Err(Report { kind: ReportKind::Error, code: ReportCode::UnterminatedTex, span: m.whole });
            },
            Some(c) => c,
        };
        proof { reveal_strlit("|$"); reveal_strlit("$"); reveal_strlit("]"); }
        let close = if m.index == 0 { str_to_chars("|$") } else { str_to_chars("$") };
        let tex = escape_text('\\', close.as_slice(), s, c.start, c.end);
        let props_text = match m.props {
            None => Vec::new(),
            Some(p) => {
                let bracket = str_to_chars("]");
                escape_text('\\', bracket.as_slice(), s, p.start, p.end)
            },
        };
        let entries = match parse_properties(props_text.as_slice(), &self.properties) {
            Err(_) => {
                return Err(Report { kind: ReportKind::Error, code: ReportCode::InvalidTexProperties, span: m.whole });
            },
            Ok(e) => e,
        };
        proof { reveal_strlit("kind"); reveal_strlit("env"); reveal_strlit("caption"); }
        let kind = match lookup(&entries, str_to_chars("kind").as_slice()) {
            None => if m.index == 1 { TexKind::Inline } else { TexKind::Block },
            Some(k) => match TexKind::from_str(k.as_slice()) {
                None => {
                    return Err(Report { kind: ReportKind::Error, code: ReportCode::InvalidTexKind, span: m.whole });
                },
                Some(kind) => kind,
            },
        };
        let env = match lookup(&entries, str_to_chars("env").as_slice()) {
            None => {
                return Err(Report { kind: ReportKind::Error, code: ReportCode::InvalidTexProperties, span: m.whole });
            },
            Some(e) => e,
        };
        let caption = match lookup(&entries, str_to_chars("caption").as_slice()) {
            None => None,
            Some(cap) => Some(chars_to_string(cap.as_slice())),
        };
        let seplen: usize = if m.index == 0 { 2 } else { 1 };
        sems.add(m.whole.start, m.whole.start + seplen, SemKind::TexSep);
        match m.props {
            Some(p) => {
                sems.add(p.start - 1, p.start, SemKind::TexPropsSep);
                sems.add(p.end, p.end + 1, SemKind::TexPropsSep);
            },
            None => {},
        }
        sems.add(c.start, c.end, SemKind::TexContent);
        sems.add(m.whole.end - seplen, m.whole.end, SemKind::TexSep);
        let warning = if tex.len() == 0 {
            Some(Report { kind: ReportKind::Error, code: ReportCode::EmptyTex, span: c })
        } else {
            None
        };
        Ok((
            Latex {
                location: m.whole,
                mathmode: m.index == 1,
                kind,
                env: chars_to_string(env.as_slice()),
                tex: chars_to_string(tex.as_slice()),
                caption,
            },
            warning,
        ))
    }
}

/// A complete LaTeX document, ready to be rendered.
pub struct FormattedTex {
    pub source: String,
}

/// The LaTeX document that renders `tex` with `preamble`.
pub open spec fn spec_format_latex(preamble: Seq<char>, tex: Seq<char>) -> Seq<char> {
    "\\documentclass[preview]{standalone}\n"@ + preamble + "\n\\begin{document}\n\\begin{preview}\n"@ + tex
        + "\n\\end{preview}\n\\end{document}"@
}

/// The LaTeX document that renders `tex` with `preamble`. The font size is
/// a setting of the renderer, not of the document.
pub fn format_latex(fontsize: &str, preamble: &str, tex: &str) -> (r: FormattedTex)
    ensures
        r.source@ == spec_format_latex(preamble@, tex@),
{
    proof {
        reveal_strlit("\\documentclass[preview]{standalone}\n");
        reveal_strlit("\n\\begin{document}\n\\begin{preview}\n");
        reveal_strlit("\n\\end{preview}\n\\end{document}");
    }
    let mut out = str_to_chars("\\documentclass[preview]{standalone}\n");
    let mut pre = str_to_chars(preamble);
    out.append(&mut pre);
    let mut mid = str_to_chars("\n\\begin{document}\n\\begin{preview}\n");
    out.append(&mut mid);
    let mut body = str_to_chars(tex);
    out.append(&mut body);
    let mut tail = str_to_chars("\n\\end{preview}\n\\end{document}");
    out.append(&mut tail);
    FormattedTex { source: chars_to_string(out.as_slice()) }
}

/// The TeX that a LaTeX element hands to the renderer: math is wrapped in
/// `${...}$`; other TeX follows the environment's `prepend` text.
pub open spec fn spec_tex_body(mathmode: bool, prepend: Seq<char>, tex: Seq<char>) -> Seq<char> {
    if mathmode {
        "${"@ + tex + "}$"@
    } else {
        prepend + tex
    }
}

impl Latex {
    /// The document that renders this element, with the environment's
    /// `preamble` and, for TeX that is not math, its `prepend` text.
    pub fn formatted(&self, fontsize: &str, preamble: &str, prepend: &str) -> (r: FormattedTex)
        ensures
            r.source@ == spec_format_latex(preamble@, spec_tex_body(self.mathmode, prepend@, self.tex@)),
    {
        proof { reveal_strlit("${"); reveal_strlit("}$"); }
        let mut body: Vec<char> = Vec::new();
        if self.mathmode {
            let mut a = str_to_chars("${");
            body.append(&mut a);
            let mut t = str_to_chars(self.tex.as_str());
            body.append(&mut t);
            let mut b = str_to_chars("}$");
            body.append(&mut b);
        } else {
            let mut a = str_to_chars(prepend);
            body.append(&mut a);
            let mut t = str_to_chars(self.tex.as_str());
            body.append(&mut t);
        }
        let body_s = chars_to_string(body.as_slice());
        format_latex(fontsize, preamble, body_s.as_str())
    }
}

/// Lowercase hexadecimal digits.
pub open spec fn is_lower_hex(c: char) -> bool {
    ('0' <= c && c <= '9') || ('a' <= c && c <= 'f')
}

/// The SHA-512 digest of the UTF-8 encoding of `s`, written in lowercase
/// hexadecimal.
pub uninterp spec fn sha512_hex(s: Seq<char>) -> Seq<char>;

/// Feeds the UTF-8 bytes of `s` to a new `crypto::sha2::Sha512` with
/// `Digest::input` and reads the digest with `Digest::result_str`. The
/// contract claims that the result is a function of `s` alone, made of 128
/// lowercase hexadecimal digits (64 bytes, two digits each, from the table
/// `0123456789abcdef` of `rustc_serialize::hex::ToHex`).
#[verifier::external_body]
fn sha512_hex_digest(s: &str) -> (r: String)
    ensures
        r@ == sha512_hex(s@),
        r@.len() == 128,
        forall|i: int| 0 <= i < r@.len() ==> is_lower_hex(#[trigger] r@[i]),
{
    let mut hasher = crypto::sha2::Sha512::new();
    hasher.input(s.as_bytes());
    hasher.result_str()
}

impl FormattedTex {
    /// The key under which the rendering of this document is cached: its
    /// SHA-512 digest.
    pub fn key(&self) -> (r: String)
        ensures
            r@ == sha512_hex(self.source@),
            r@.len() == 128,
            forall|i: int| 0 <= i < r@.len() ==> is_lower_hex(#[trigger] r@[i]),
    {
        sha512_hex_digest(self.source.as_str())
    }
}

/// The rendering `svg` of a LaTeX element with its caption as the SVG's
/// title: `<title>caption</title>` (the caption as HTML text) right after the
/// first `>`. Without a caption or a `>`, the rendering is unchanged.
pub open spec fn spec_with_caption(svg: Seq<char>, caption: Option<Seq<char>>) -> Seq<char> {
    match caption {
        None => svg,
        Some(c) => match spec_find_char(svg, 0, svg.len() as int, '>') {
            None => svg,
            Some(k) => svg.subrange(0, k + 1) + "<title>"@ + spec_sanitize(c) + "</title>"@ + svg.subrange(
                k + 1,
                svg.len() as int,
            ),
        },
    }
}

/// See `spec_with_caption`.
pub fn with_caption(svg: &str, caption: Option<&String>) -> (r: String)
    ensures
        r@ == spec_with_caption(svg@, match caption {
            Some(c) => Some(c@),
            None => None,
        }),
{
    proof { reveal_strlit("<title>"); reveal_strlit("</title>"); }
    let s = str_to_chars(svg);
    match caption {
        None => String::from_str(svg),
        Some(c) => {
            proof { lemma_find_char(s@, 0, s@.len() as int, '>'); }
            match find_char(s.as_slice(), 0, s.len(), '>') {
                None => String::from_str(svg),
                Some(k) => {
                    let mut out = slice_to_vec(s.as_slice(), 0, k + 1);
                    push_str(&mut out, "<title>");
                    let sc = sanitize(str_to_chars(c.as_str()).as_slice());
                    push_chars(&mut out, sc.as_slice());
                    push_str(&mut out, "</title>");
                    let rest = slice_to_vec(s.as_slice(), k + 1, s.len());
                    push_chars(&mut out, rest.as_slice());
                    chars_to_string(out.as_slice())
                },
            }
        },
    }
}

} // verus!
