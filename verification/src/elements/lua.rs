//! Lua code in the document: blocks `:lua [props]` ... delimiter, and
//! inline code `{:lua[props]kind code:}` (run while parsing) or
//! `{:lua_post[props]kind code:}` (run once the document is parsed). The
//! code is run outside the library; the parser records what to run.
use vstd::prelude::*;

use crate::chars::{is_inline_space, is_whitespace, spec_is_inline_space, spec_is_whitespace};
use crate::document::{spec_report_kind, Report, ReportCode, ReportKind, Token};
use crate::elements::script::{spec_kernel_name, validate_kernel_name};
use crate::interop::{chars_to_string, str_to_chars};
use crate::properties::{lookup, parse_properties, schema_view, spec_lookup, spec_parse_properties, PropertySpec};
use crate::scan::{
    esc_until, find_char, lemma_esc_until_range, lemma_find_char, lemma_line_end, line_end,
    spec_esc_until, spec_find_char, spec_line_end,
};
use crate::semantics::{spec_add_token, SemKind, SemToken, Semantics};
use crate::text::{escape_text, slice_to_vec, spec_escape_text, spec_starts_at, starts_at};

verus! {

/// What is done with the value of inline Lua code.
#[derive(Clone, Copy, PartialEq, Eq, Debug, Structural)]
pub enum LuaEvalKind {
    /// The value is dropped.
    Discard,
    /// The value is a string, inserted as text.
    String,
    /// The value is a string, parsed as NML.
    StringParse,
}

/// The evaluation kind written `s`: nothing, `'` or `!`.
pub open spec fn spec_eval_kind_from(s: Seq<char>) -> Option<LuaEvalKind> {
    if s.len() == 0 {
        Some(LuaEvalKind::Discard)
    } else if s == seq!['\''] {
        Some(LuaEvalKind::String)
    } else if s == seq!['!'] {
        Some(LuaEvalKind::StringParse)
    } else {
        None
    }
}

impl LuaEvalKind {
    /// See `spec_eval_kind_from`.
    pub fn from_str(s: &[char]) -> (r: Option<LuaEvalKind>)
        ensures
            r == spec_eval_kind_from(s@),
    {
        if s.len() == 0 {
            Some(LuaEvalKind::Discard)
        } else if s.len() == 1 && s[0] == '\'' {
            assert(s@ =~= seq!['\'']);
            Some(LuaEvalKind::String)
        } else if s.len() == 1 && s[0] == '!' {
            assert(s@ =~= seq!['!']);
            Some(LuaEvalKind::StringParse)
        } else {
            proof {
                if s@.len() == 1 {
                    assert(s@ != seq!['\''] && s@ != seq!['!']) by {
                        assert(seq!['\''][0] == '\'' && seq!['!'][0] == '!');
                    }
                }
            }
            None
        }
    }
}

/// Inline Lua code to run once the document is parsed.
pub struct LuaPostProcess {
    pub location: Token,
    pub kernel: String,
    pub eval_kind: LuaEvalKind,
    pub code: String,
}

/// What the evaluation of post-processed code adds to the document.
pub enum PostExpansion {
    Nothing,
    /// Text, inserted as it is.
    Text(String),
    /// NML, to parse in place.
    Parse(String),
}

impl LuaPostProcess {
    /// What the value `result` of the code's evaluation adds: nothing when
    /// the value is dropped or is empty; otherwise the value as text, or as
    /// NML to parse, as the evaluation kind asks.
    pub fn expansion(&self, result: String) -> (r: PostExpansion)
        ensures
            (self.eval_kind == LuaEvalKind::Discard || result@.len() == 0) <==> r is Nothing,
            r matches PostExpansion::Text(t) ==> self.eval_kind == LuaEvalKind::String && t@ == result@,
            r matches PostExpansion::Parse(t) ==> self.eval_kind == LuaEvalKind::StringParse && t@ == result@,
    {
        let empty = str_to_chars(result.as_str()).len() == 0;
        match self.eval_kind {
            LuaEvalKind::Discard => PostExpansion::Nothing,
            LuaEvalKind::String => if empty { PostExpansion::Nothing } else { PostExpansion::Text(result) },
            LuaEvalKind::StringParse => if empty { PostExpansion::Nothing } else { PostExpansion::Parse(result) },
        }
    }
}

/// What follows the opening of inline code (and its properties): an
/// optional kind (`!` or `'`) and one whitespace character. Result: the
/// kind's range and where the code starts.
pub open spec fn spec_lua_tail(s: Seq<char>, j: int) -> Option<(Option<Token>, int)> {
    if 0 <= j && j + 1 < s.len() && (s[j] == '!' || s[j] == '\'') && spec_is_whitespace(s[j + 1]) {
        Some((Some(Token { start: j as usize, end: (j + 1) as usize }), j + 2))
    } else if 0 <= j < s.len() && spec_is_whitespace(s[j]) {
        Some((None, j + 1))
    } else {
        None
    }
}

/// The properties of inline code, scanned from `x`: they end at the first
/// unescaped `]` that the kind and whitespace follow. Result: that `]`, the
/// kind's range and where the code starts.
pub open spec fn spec_lua_props_from(s: Seq<char>, x: int) -> Option<(int, Option<Token>, int)>
    decreases s.len() + 1 - x,
{
    if x < 0 || x > s.len() {
        None
    } else {
        match spec_esc_until(s, x, "]"@, false) {
            None => None,
            Some(k) => {
                proof {
                    lemma_esc_until_range(s, x, "]"@, false);
                }
                match spec_lua_tail(s, k + 1) {
                    Some((kind, after)) => Some((k, kind, after)),
                    None => spec_lua_props_from(s, k + 1),
                }
            },
        }
    }
}

/// Opening of pattern `index`: `{:lua` (0) or `{:lua_post` (1).
pub open spec fn spec_inline_open(index: usize) -> Seq<char> {
    if index == 0 { "{:lua"@ } else { "{:lua_post"@ }
}

/// The ranges of inline Lua code.
#[derive(Clone, Copy, PartialEq, Eq, Debug, Structural)]
pub struct InlineLuaMatch {
    pub index: usize,
    pub whole: Token,
    pub props: Option<Token>,
    pub kind: Option<Token>,
    /// The code, when the closing `:}` was found.
    pub content: Option<Token>,
}

/// The match at `p` of pattern `index`:
/// `(\{:lua)(?:\[((?:\\.|[^\\])*?)\])?(!|')?\s(?:((?:\\.|[^\\])*?)(:\}))?`
/// (`{:lua_post` for 1).
pub open spec fn spec_inline_lua_at(s: Seq<char>, index: usize, p: int) -> Option<InlineLuaMatch> {
    let open = spec_inline_open(index);
    if !spec_starts_at(s, p, open) {
        None
    } else {
        let i = p + open.len();
        let head = if i < s.len() && s[i] == '[' {
            match spec_lua_props_from(s, i + 1) {
                Some((k, kind, after)) => Some((Some(Token { start: (i + 1) as usize, end: k as usize }), kind, after)),
                None => None,
            }
        } else {
            match spec_lua_tail(s, i) {
                Some((kind, after)) => Some((None::<Token>, kind, after)),
                None => None,
            }
        };
        match head {
            None => None,
            Some((props, kind, after)) => match spec_esc_until(s, after, ":}"@, false) {
                Some(e) => Some(InlineLuaMatch {
                    index,
                    whole: Token { start: p as usize, end: (e + 2) as usize },
                    props,
                    kind,
                    content: Some(Token { start: after as usize, end: e as usize }),
                }),
                None => Some(InlineLuaMatch {
                    index,
                    whole: Token { start: p as usize, end: after as usize },
                    props,
                    kind,
                    content: None,
                }),
            },
        }
    }
}

/// The inline code at `p`: `{:lua` before `{:lua_post`.
pub open spec fn spec_any_inline_lua_at(s: Seq<char>, p: int) -> Option<InlineLuaMatch> {
    if spec_inline_lua_at(s, 0, p) is Some {
        spec_inline_lua_at(s, 0, p)
    } else {
        spec_inline_lua_at(s, 1, p)
    }
}

pub open spec fn inline_lua_match_wf(s: Seq<char>, m: InlineLuaMatch) -> bool {
    &&& m.index < 2
    &&& m.whole.start + spec_inline_open(m.index).len() < m.whole.end <= s.len()
    &&& m.props matches Some(pr) ==> m.whole.start + spec_inline_open(m.index).len() + 1 == pr.start
        <= pr.end && pr.end + 1 <= m.whole.end
    &&& m.kind matches Some(k) ==> m.whole.start + spec_inline_open(m.index).len() <= k.start && k.start
        + 1 == k.end && k.end <= m.whole.end
    &&& m.content matches Some(c) ==> m.whole.start + spec_inline_open(m.index).len() < c.start <= c.end
        && c.end + 2 == m.whole.end
}

/// The properties of inline Lua code: `kernel`, `main` by default.
pub open spec fn inline_lua_schema() -> Seq<(Seq<char>, bool, Option<Seq<char>>)> {
    seq![("kernel"@, true, Some("main"@))]
}

/// What inline code yields: its kernel, evaluation kind and code; or the
/// error that refuses it.
pub open spec fn spec_inline_lua_result(s: Seq<char>, m: InlineLuaMatch) -> Result<(Seq<char>, LuaEvalKind, Seq<char>), ReportCode> {
    match m.content {
        None => Err(ReportCode::UnterminatedInlineLua),
        Some(c) => {
            let props = match m.props {
                None => Seq::<char>::empty(),
                Some(p) => spec_escape_text('\\', "]"@, s.subrange(p.start as int, p.end as int)),
            };
            match spec_parse_properties(props, inline_lua_schema()) {
                Err(_) => Err(ReportCode::InvalidLuaProperties),
                Ok(entries) => match spec_lookup(entries, "kernel"@) {
                    None => Err(ReportCode::InvalidLuaProperties),
                    Some(k) => match spec_kernel_name(Some(k)) {
                        None => Err(ReportCode::InvalidKernelName),
                        Some(kernel) => {
                            let kind_text = match m.kind {
                                None => Seq::<char>::empty(),
                                Some(t) => s.subrange(t.start as int, t.end as int),
                            };
                            match spec_eval_kind_from(kind_text) {
                                None => Err(ReportCode::InvalidKernelKind),
                                Some(kind) => Ok((kernel, kind, spec_escape_text('\\', ":}"@, s.subrange(c.start as int, c.end as int)))),
                            }
                        },
                    },
                },
            }
        },
    }
}

/// The rule for inline Lua code.
pub struct InlineLuaRule {
    pub properties: Vec<PropertySpec>,
}

impl InlineLuaRule {
    pub fn new() -> (r: InlineLuaRule)
        ensures
            schema_view(r.properties@) == inline_lua_schema(),
    {
        let mut properties: Vec<PropertySpec> = Vec::new();
        properties.push(PropertySpec { name: str_to_chars("kernel"), required: true, default: Some(str_to_chars("main")) });
        let r = InlineLuaRule { properties };
        assert(schema_view(r.properties@) =~= inline_lua_schema());
        r
    }

    fn tail(&self, s: &[char], j: usize) -> (r: Option<(Option<Token>, usize)>)
        ensures
            match r {
                Some((k, a)) => spec_lua_tail(s@, j as int) == Some((k, a as int)) && j < a <= s@.len()
                    && (k matches Some(t) ==> t.start == j && t.end == j + 1 && a == j + 2)
                    && (k is None ==> a == j + 1),
                None => spec_lua_tail(s@, j as int) is None,
            },
    {
        let n = s.len();
        if j < n && j + 1 < n && (s[j] == '!' || s[j] == '\'') && is_whitespace(s[j + 1]) {
            Some((Some(Token { start: j, end: j + 1 }), j + 2))
        } else if j < n && is_whitespace(s[j]) {
            Some((None, j + 1))
        } else {
            None
        }
    }

    fn props_from(&self, s: &[char], x: usize) -> (r: Option<(usize, Option<Token>, usize)>)
        requires
            x <= s@.len(),
        ensures
            match r {
                Some((k, kind, a)) => spec_lua_props_from(s@, x as int) == Some((k as int, kind, a as int))
                    && x <= k && k < a <= s@.len()
                    && (kind matches Some(t) ==> t.start == k + 1 && t.end == k + 2 && a == k + 3)
                    && (kind is None ==> a == k + 2),
                None => spec_lua_props_from(s@, x as int) is None,
            },
        decreases s@.len() + 1 - x,
    {
        proof { reveal_strlit("]"); }
        let n = s.len();
        let close = str_to_chars("]");
        proof { lemma_esc_until_range(s@, x as int, close@, false); }
        match esc_until(s, x, close.as_slice(), false) {
            None => None,
            Some(k) => match self.tail(s, k + 1) {
                Some((kind, after)) => Some((k, kind, after)),
                None => match self.props_from(s, k + 1) {
                    Some((k2, kind, after)) => Some((k2, kind, after)),
                    None => None,
                },
            },
        }
    }

    /// The match of pattern `index` at `p` (see `spec_inline_lua_at`).
    pub fn inline_at(&self, s: &[char], index: usize, p: usize) -> (r: Option<InlineLuaMatch>)
        requires
            index < 2,
        ensures
            r == spec_inline_lua_at(s@, index, p as int),
            r matches Some(m) ==> inline_lua_match_wf(s@, m) && m.whole.start == p,
    {
        proof { reveal_strlit("{:lua"); reveal_strlit("{:lua_post"); reveal_strlit(":}"); }
        let open = if index == 0 { str_to_chars("{:lua") } else { str_to_chars("{:lua_post") };
        let open_s = open.as_slice();
        if !starts_at(s, p, open_s) {
            return None;
        }
        let n = s.len();
        assert(p + open_s@.len() <= n);
        let i = p + open_s.len();
        let head: Option<(Option<Token>, Option<Token>, usize)> = if i < n && s[i] == '[' {
            match self.props_from(s, i + 1) {
                Some((k, kind, after)) => Some((Some(Token { start: i + 1, end: k }), kind, after)),
                None => None,
            }
        } else {
            match self.tail(s, i) {
                Some((kind, after)) => Some((None, kind, after)),
                None => None,
            }
        };
        match head {
            None => None,
            Some((props, kind, after)) => {
                let close = str_to_chars(":}");
                proof { lemma_esc_until_range(s@, after as int, close@, false); }
                match esc_until(s, after, close.as_slice(), false) {
                    Some(e) => Some(InlineLuaMatch {
                        index,
                        whole: Token { start: p, end: e + 2 },
                        props,
                        kind,
                        content: Some(Token { start: after, end: e }),
                    }),
                    None => Some(InlineLuaMatch { index, whole: Token { start: p, end: after }, props, kind, content: None }),
                }
            },
        }
    }

    /// The inline code at `p` (see `spec_any_inline_lua_at`).
    pub fn lua_at(&self, s: &[char], p: usize) -> (r: Option<InlineLuaMatch>)
        ensures
            r == spec_any_inline_lua_at(s@, p as int),
            r matches Some(m) ==> inline_lua_match_wf(s@, m) && m.whole.start == p,
    {
        match self.inline_at(s, 0, p) {
            Some(m) => Some(m),
            None => self.inline_at(s, 1, p),
        }
    }

    /// The first inline code at or after `from`.
    pub fn find(&self, s: &[char], from: usize) -> (r: Option<InlineLuaMatch>)
        ensures
            match r {
                Some(m) => from <= m.whole.start && spec_any_inline_lua_at(s@, m.whole.start as int) == Some(m)
                    && inline_lua_match_wf(s@, m)
                    && forall|q: int| from <= q < m.whole.start ==> spec_any_inline_lua_at(s@, q) is None,
                None => forall|q: int| from <= q ==> spec_any_inline_lua_at(s@, q) is None,
            },
    {
        proof { reveal_strlit("{:lua"); reveal_strlit("{:lua_post"); }
        let mut p = from;
        while p < s.len()
            invariant
                from <= p,
                forall|q: int| from <= q < p ==> spec_any_inline_lua_at(s@, q) is None,
            decreases s@.len() - p,
        {
            match self.lua_at(s, p) {
                Some(m) => return Some(m),
                None => {},
            }
            p += 1;
        }
        None
    }

    /// Checks the inline code `m`: gives its kernel, evaluation kind and
    /// code, or the report that refuses it.
    pub fn on_match(&self, s: &[char], m: InlineLuaMatch, sems: &mut Semantics) -> (r: Result<(String, LuaEvalKind, String), Report>)
        requires
            inline_lua_match_wf(s@, m),
            schema_view(self.properties@) == inline_lua_schema(),
            old(sems).wf(),
        ensures
            final(sems).wf(),
            match r {
                Ok((k, e, c)) => spec_inline_lua_result(s@, m) == Ok::<(Seq<char>, LuaEvalKind, Seq<char>), ReportCode>(
                    (k@, e, c@),
                ),
                Err(rep) => spec_inline_lua_result(s@, m) == Err::<(Seq<char>, LuaEvalKind, Seq<char>), ReportCode>(rep.code) && rep.kind == spec_report_kind(rep.code)
                    && rep.span == m.whole,
            },
            r is Ok ==> final(sems).tokens@ == spec_inline_lua_tokens(old(sems).tokens@, m),
            r is Err ==> final(sems).tokens@ == spec_inline_lua_head_tokens(old(sems).tokens@, m),
    {
        proof { reveal_strlit("{:lua"); reveal_strlit("{:lua_post"); }
        let olen: usize = if m.index == 0 { 5 } else { 10 };
        sems.add(m.whole.start, m.whole.start + olen, SemKind::LuaDelimiter);
        match m.props {
            Some(p) => {
                sems.add(p.start - 1, p.start, SemKind::LuaPropsSep);
                sems.add(p.end, p.end + 1, SemKind::LuaPropsSep);
            },
            None => {},
        }
        match m.kind {
            Some(k) => sems.add(k.start, k.end, SemKind::LuaKind),
            None => {},
        }
        let c = match m.content {
            None => {
                return Err(Report { kind: ReportKind::Error, code: ReportCode::UnterminatedInlineLua, span: m.whole });
            },
            Some(c) => c,
        };
        proof { reveal_strlit("]"); reveal_strlit(":}"); reveal_strlit("kernel"); }
        let props_text = match m.props {
            None => Vec::new(),
            Some(p) => {
                let close = str_to_chars("]");
                escape_text('\\', close.as_slice(), s, p.start, p.end)
            },
        };
        let entries = match parse_properties(props_text.as_slice(), &self.properties) {
            Err(_) => {
                return Err(Report { kind: ReportKind::Error, code: ReportCode::InvalidLuaProperties, span: m.whole });
            },
            Ok(e) => e,
        };
        let kernel = match lookup(&entries, str_to_chars("kernel").as_slice()) {
            None => {
                return Err(Report { kind: ReportKind::Error, code: ReportCode::InvalidLuaProperties, span: m.whole });
            },
            Some(k) => match validate_kernel_name(k.as_slice()) {
                None => {
                    return Err(Report { kind: ReportKind::Error, code: ReportCode::InvalidKernelName, span: m.whole });
                },
                Some(name) => name,
            },
        };
        let kind_text = match m.kind {
            None => Vec::new(),
            Some(t) => slice_to_vec(s, t.start, t.end),
        };
        let kind = match LuaEvalKind::from_str(kind_text.as_slice()) {
            None => {
                return Err(Report { kind: ReportKind::Error, code: ReportCode::InvalidKernelKind, span: m.whole });
            },
            Some(k) => k,
        };
        let close = str_to_chars(":}");
        let code = escape_text('\\', close.as_slice(), s, c.start, c.end);
        sems.add(c.start, c.end, SemKind::LuaContent);
        sems.add(m.whole.end - 2, m.whole.end, SemKind::LuaDelimiter);
        Ok((chars_to_string(kernel.as_slice()), kind, chars_to_string(code.as_slice())))
    }
}

/// The tokens `t` with those of the opening of inline Lua `m` added: its
/// opening delimiter, the brackets of its properties and its kind; these
/// come even when the code is refused.
pub open spec fn spec_inline_lua_head_tokens(t: Seq<SemToken>, m: InlineLuaMatch) -> Seq<SemToken> {
    let olen: int = if m.index == 0 { 5 } else { 10 };
    let t1 = spec_add_token(t, m.whole.start as int, m.whole.start + olen, SemKind::LuaDelimiter);
    let t2 = match m.props {
        Some(p) => {
            let a = spec_add_token(t1, p.start - 1, p.start as int, SemKind::LuaPropsSep);
            spec_add_token(a, p.end as int, p.end + 1, SemKind::LuaPropsSep)
        },
        None => t1,
    };
    match m.kind {
        Some(k) => spec_add_token(t2, k.start as int, k.end as int, SemKind::LuaKind),
        None => t2,
    }
}

/// The tokens `t` with all those of inline Lua `m` added: its opening (see
/// `spec_inline_lua_head_tokens`), its code and its closing delimiter.
pub open spec fn spec_inline_lua_tokens(t: Seq<SemToken>, m: InlineLuaMatch) -> Seq<SemToken> {
    let c = m.content->0;
    let h = spec_inline_lua_head_tokens(t, m);
    let t1 = spec_add_token(h, c.start as int, c.end as int, SemKind::LuaContent);
    spec_add_token(t1, m.whole.end - 2, m.whole.end as int, SemKind::LuaDelimiter)
}

/// The ranges of the first line of a Lua block.
#[derive(Clone, Copy, PartialEq, Eq, Debug, Structural)]
pub struct LuaBlockMatch {
    pub whole: Token,
    /// `:lua`.
    pub command: Token,
    /// The rest of the line: the properties.
    pub props: Token,
}

/// The first line of a Lua block at `p`, whose `:lua` is at `q`.
pub open spec fn spec_lua_block_from(s: Seq<char>, p: int, q: int) -> Option<LuaBlockMatch> {
    let a = q + 4;
    let command = Token { start: q as usize, end: a as usize };
    if a < s.len() && spec_is_inline_space(s[a]) {
        let le = spec_line_end(s, a);
        Some(LuaBlockMatch {
            whole: Token { start: p as usize, end: (if le < s.len() { le + 1 } else { le }) as usize },
            command,
            props: Token { start: a as usize, end: le as usize },
        })
    } else if a == s.len() {
        Some(LuaBlockMatch { whole: Token { start: p as usize, end: a as usize }, command, props: Token { start: a as usize, end: a as usize } })
    } else if s[a] == '\n' {
        Some(LuaBlockMatch { whole: Token { start: p as usize, end: (a + 1) as usize }, command, props: Token { start: a as usize, end: a as usize } })
    } else if a + 1 == s.len() {
        Some(LuaBlockMatch { whole: Token { start: p as usize, end: (a + 1) as usize }, command, props: Token { start: a as usize, end: (a + 1) as usize } })
    } else if s[a + 1] == '\n' {
        Some(LuaBlockMatch { whole: Token { start: p as usize, end: (a + 2) as usize }, command, props: Token { start: a as usize, end: (a + 1) as usize } })
    } else {
        None
    }
}

/// The match at `p` of `(?:\n|^)(:lua)([^\S\n\r]+.*|.?)?(?:\n|$)`.
pub open spec fn spec_lua_block_at(s: Seq<char>, p: int) -> Option<LuaBlockMatch> {
    if 0 <= p < s.len() && s[p] == '\n' && spec_starts_at(s, p + 1, ":lua"@) {
        spec_lua_block_from(s, p, p + 1)
    } else if p == 0 && spec_starts_at(s, 0, ":lua"@) {
        spec_lua_block_from(s, 0, 0)
    } else {
        None
    }
}

pub open spec fn lua_block_match_wf(s: Seq<char>, m: LuaBlockMatch) -> bool {
    &&& m.whole.start <= m.command.start && m.command.start + 4 == m.command.end == m.props.start
    &&& m.props.start <= m.props.end < m.whole.end + 1 && m.props.end <= m.whole.end <= s.len()
    &&& m.command.start < m.whole.end
}

/// The end of a Lua block's code, searched from `x`: the start of the
/// first line after a newline that begins with `delim`.
pub open spec fn spec_lua_content_end(s: Seq<char>, x: int, delim: Seq<char>) -> Option<int>
    decreases s.len() + 1 - x,
{
    if x < 0 || x > s.len() {
        None
    } else {
        match spec_find_char(s, x, s.len() as int, '\n') {
            None => None,
            Some(nl) => {
                proof {
                    lemma_find_char(s, x, s.len() as int, '\n');
                }
                if spec_starts_at(s, nl + 1, delim) {
                    Some(nl + 1)
                } else {
                    spec_lua_content_end(s, nl + 1, delim)
                }
            },
        }
    }
}

/// The properties of Lua blocks: `kernel` (`main` by default) and `delim`
/// (`EOF` by default).
pub open spec fn lua_block_schema() -> Seq<(Seq<char>, bool, Option<Seq<char>>)> {
    seq![("kernel"@, true, Some("main"@)), ("delim"@, true, Some("EOF"@))]
}

/// What a Lua block yields: its kernel, its code and the code's range, and
/// where parsing goes on; or the error that refuses it, parsing going on
/// after the first line.
pub open spec fn spec_lua_block_result(s: Seq<char>, m: LuaBlockMatch) -> (Result<(Seq<char>, Seq<char>, Token), ReportCode>, int) {
    let props = spec_escape_text('\\', Seq::<char>::empty(), s.subrange(m.props.start as int, m.props.end as int));
    match spec_parse_properties(props, lua_block_schema()) {
        Err(_) => (Err(ReportCode::InvalidLuaProperties), m.whole.end as int),
        Ok(entries) => match spec_lookup(entries, "kernel"@) {
            None => (Err(ReportCode::InvalidLuaProperties), m.whole.end as int),
            Some(k) => match spec_kernel_name(Some(k)) {
                None => (Err(ReportCode::InvalidKernelName), m.whole.end as int),
                Some(kernel) => match spec_lookup(entries, "delim"@) {
                    None => (Err(ReportCode::InvalidLuaProperties), m.whole.end as int),
                    Some(delim) => match spec_lua_content_end(s, m.whole.end as int, delim) {
                        None => (Err(ReportCode::UnterminatedLua), m.whole.end as int),
                        Some(e) => (
                            Ok((kernel, s.subrange(m.whole.end as int, e), Token { start: m.whole.end, end: e as usize })),
                            e + delim.len(),
                        ),
                    },
                },
            },
        },
    }
}

/// The rule for Lua blocks.
pub struct LuaRule {
    pub properties: Vec<PropertySpec>,
}

impl LuaRule {
    pub fn new() -> (r: LuaRule)
        ensures
            schema_view(r.properties@) == lua_block_schema(),
    {
        let mut properties: Vec<PropertySpec> = Vec::new();
        properties.push(PropertySpec { name: str_to_chars("kernel"), required: true, default: Some(str_to_chars("main")) });
        properties.push(PropertySpec { name: str_to_chars("delim"), required: true, default: Some(str_to_chars("EOF")) });
        let r = LuaRule { properties };
        assert(schema_view(r.properties@) =~= lua_block_schema());
        r
    }

    fn block_from(&self, s: &[char], p: usize, q: usize) -> (r: Option<LuaBlockMatch>)
        requires
            p <= q,
            q + 4 <= s@.len(),
        ensures
            r == spec_lua_block_from(s@, p as int, q as int),
            r matches Some(m) ==> lua_block_match_wf(s@, m),
    {
        let n = s.len();
        let a = q + 4;
        let command = Token { start: q, end: a };
        if a < n && is_inline_space(s[a]) {
            let le = line_end(s, a);
            proof { lemma_line_end(s@, a as int); }
            let end = if le < n { le + 1 } else { le };
            Some(LuaBlockMatch { whole: Token { start: p, end }, command, props: Token { start: a, end: le } })
        } else if a == n {
            Some(LuaBlockMatch { whole: Token { start: p, end: a }, command, props: Token { start: a, end: a } })
        } else if s[a] == '\n' {
            Some(LuaBlockMatch { whole: Token { start: p, end: a + 1 }, command, props: Token { start: a, end: a } })
        } else if a + 1 == n {
            Some(LuaBlockMatch { whole: Token { start: p, end: a + 1 }, command, props: Token { start: a, end: a + 1 } })
        } else if s[a + 1] == '\n' {
            Some(LuaBlockMatch { whole: Token { start: p, end: a + 2 }, command, props: Token { start: a, end: a + 1 } })
        } else {
            None
        }
    }

    /// The match at `p` (see `spec_lua_block_at`).
    pub fn block_at(&self, s: &[char], p: usize) -> (r: Option<LuaBlockMatch>)
        ensures
            r == spec_lua_block_at(s@, p as int),
            r matches Some(m) ==> lua_block_match_wf(s@, m) && m.whole.start == p,
    {
        proof { reveal_strlit(":lua"); }
        let cmd = str_to_chars(":lua");
        let n = s.len();
        if p < n && s[p] == '\n' && p + 1 <= n && starts_at(s, p + 1, cmd.as_slice()) {
            self.block_from(s, p, p + 1)
        } else if p == 0 && starts_at(s, 0, cmd.as_slice()) {
            self.block_from(s, 0, 0)
        } else {
            None
        }
    }

    /// The first Lua block at or after `from`.
    pub fn find(&self, s: &[char], from: usize) -> (r: Option<LuaBlockMatch>)
        ensures
            match r {
                Some(m) => from <= m.whole.start && spec_lua_block_at(s@, m.whole.start as int) == Some(m)
                    && lua_block_match_wf(s@, m)
                    && forall|q: int| from <= q < m.whole.start ==> spec_lua_block_at(s@, q) is None,
                None => forall|q: int| from <= q ==> spec_lua_block_at(s@, q) is None,
            },
    {
        proof { reveal_strlit(":lua"); }
        let mut p = from;
        while p < s.len()
            invariant
                from <= p,
                forall|q: int| from <= q < p ==> spec_lua_block_at(s@, q) is None,
            decreases s@.len() - p,
        {
            match self.block_at(s, p) {
                Some(m) => return Some(m),
                None => {},
            }
            p += 1;
        }
        None
    }

    fn content_end(&self, s: &[char], x: usize, delim: &[char]) -> (r: Option<usize>)
        requires
            x <= s@.len(),
        ensures
            match r {
                Some(e) => spec_lua_content_end(s@, x as int, delim@) == Some(e as int) && x < e <= s@.len()
                    && e + delim@.len() <= s@.len(),
                None => spec_lua_content_end(s@, x as int, delim@) is None,
            },
        decreases s@.len() + 1 - x,
    {
        let n = s.len();
        proof { lemma_find_char(s@, x as int, n as int, '\n'); }
        match find_char(s, x, n, '\n') {
            None => None,
            Some(nl) => {
                if starts_at(s, nl + 1, delim) {
                    Some(nl + 1)
                } else {
                    self.content_end(s, nl + 1, delim)
                }
            },
        }
    }

    /// Checks the Lua block whose first line is `m`: gives its kernel, code
    /// and the code's range, or the report that refuses it; with where
    /// parsing goes on.
    pub fn on_match(&self, s: &[char], m: LuaBlockMatch, sems: &mut Semantics) -> (r: (Result<(String, String, Token), Report>, usize))
        requires
            lua_block_match_wf(s@, m),
            schema_view(self.properties@) == lua_block_schema(),
            old(sems).wf(),
        ensures
            final(sems).wf(),
            m.whole.end <= r.1 <= s@.len(),
            m.whole.start < r.1,
            match r.0 {
                Ok((k, c, t)) => spec_lua_block_result(s@, m) == (
                    Ok::<(Seq<char>, Seq<char>, Token), ReportCode>((k@, c@, t)),
                    r.1 as int,
                ),
                Err(rep) => spec_lua_block_result(s@, m) == (
                    Err::<(Seq<char>, Seq<char>, Token), ReportCode>(rep.code),
                    r.1 as int,
                ) && rep.kind == spec_report_kind(rep.code)
                    && rep.span == (if rep.code == ReportCode::UnterminatedLua {
                        Token { start: m.command.start, end: m.props.end }
                    } else {
                        m.props
                    }),
            },
            final(sems).tokens@ == (match r.0 {
                Ok((_, _, t)) => {
                    let a = spec_add_token(old(sems).tokens@, m.command.start as int, m.command.end as int, SemKind::LuaCommand);
                    let b = spec_add_token(a, t.start as int, t.end as int, SemKind::LuaContent);
                    spec_add_token(b, t.end as int, r.1 as int, SemKind::LuaDelimiter)
                },
                Err(_) => spec_add_token(old(sems).tokens@, m.command.start as int, m.command.end as int, SemKind::LuaCommand),
            }),
    {
        proof { reveal_strlit("kernel"); reveal_strlit("delim"); }
        sems.add(m.command.start, m.command.end, SemKind::LuaCommand);
        let empty: Vec<char> = Vec::new();
        let props_text = escape_text('\\', empty.as_slice(), s, m.props.start, m.props.end);
        assert(empty@ =~= Seq::<char>::empty());
        let entries = match parse_properties(props_text.as_slice(), &self.properties) {
            Err(_) => {
                return (Err(Report { kind: ReportKind::Error, code: ReportCode::InvalidLuaProperties, span: m.props }), m.whole.end);
            },
            Ok(e) => e,
        };
        let kernel = match lookup(&entries, str_to_chars("kernel").as_slice()) {
            None => {
                return (Err(Report { kind: ReportKind::Error, code: ReportCode::InvalidLuaProperties, span: m.props }), m.whole.end);
            },
            Some(k) => match validate_kernel_name(k.as_slice()) {
                None => {
                    return (Err(Report { kind: ReportKind::Error, code: ReportCode::InvalidKernelName, span: m.props }), m.whole.end);
                },
                Some(name) => name,
            },
        };
        let delim = match lookup(&entries, str_to_chars("delim").as_slice()) {
            None => {
                return (Err(Report { kind: ReportKind::Error, code: ReportCode::InvalidLuaProperties, span: m.props }), m.whole.end);
            },
            Some(d) => d,
        };
        let e = match self.content_end(s, m.whole.end, delim.as_slice()) {
            None => {
                let span = Token { start: m.command.start, end: m.props.end };
                return (Err(Report { kind: ReportKind::Error, code: ReportCode::UnterminatedLua, span }), m.whole.end);
            },
            Some(e) => e,
        };
        let n = s.len();
        sems.add(m.whole.end, e, SemKind::LuaContent);
        sems.add(e, e + delim.len(), SemKind::LuaDelimiter);
        let code = slice_to_vec(s, m.whole.end, e);
        (Ok((chars_to_string(kernel.as_slice()), chars_to_string(code.as_slice()), Token { start: m.whole.end, end: e })), e + delim.len())
    }
}

} // verus!
