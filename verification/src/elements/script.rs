//! Scripts: Lua code run by a kernel, `@<kernel ... >@` at the start of a
//! line, or evaluated inline, `%<[kernel]kind ... >%`. The code is run
//! outside the library: the parser stops at each script to have it run
//! (`Parser::parse_until_script`), or keeps it in the document.
use vstd::prelude::*;

use crate::chars::{is_alpha, is_whitespace, spec_is_alpha, spec_is_whitespace};
use crate::compile::{push_chars, push_str};
use crate::document::{spec_report_kind, Report, ReportCode, ReportKind, Token};
use crate::interop::{chars_to_string, str_to_chars};
use crate::scan::{find_char, lemma_find_char, lemma_line_end, line_end, spec_find_char, spec_line_end};
use crate::semantics::{spec_add_token, SemKind, SemToken, Semantics};
use crate::elements::text::Text;
use crate::text::{process_text, spec_process_text, escape_text, spec_escape_text, spec_starts_at, spec_trim, starts_at, trim, trim_bounds};

verus! {

/// What is done with a script's code.
#[derive(Clone, Copy, PartialEq, Eq, Debug, Structural)]
pub enum ScriptKind {
    /// `@<...>@`: run the code.
    Exec,
    /// `%<...>%`: evaluate the code and discard the result.
    Eval,
    /// `%<"...>%`: evaluate the code and insert the result as text.
    EvalText,
    /// `%<!...>%`: evaluate the code and parse the result as NML.
    EvalParse,
}

/// A script to run, in the document.
pub struct Script {
    pub location: Token,
    pub kernel: String,
    pub kind: ScriptKind,
    pub code: String,
}

/// Scan of script code from `i` up to `tok` (`>@` or `>%`), which may be
/// preceded by a newline that is not part of the code. A backslash takes the
/// next character (not a newline) literally. Result: the end of the code and
/// the end of the match.
pub open spec fn spec_code_scan(s: Seq<char>, i: int, tok: Seq<char>) -> Option<(int, int)>
    decreases s.len() - i,
{
    if i < 0 || i > s.len() {
        None
    } else if i < s.len() && s[i] == '\n' && spec_starts_at(s, i + 1, tok) {
        Some((i, i + 1 + tok.len()))
    } else if spec_starts_at(s, i, tok) {
        Some((i, i + tok.len()))
    } else if i == s.len() {
        None
    } else if s[i] == '\\' {
        if i + 1 < s.len() && s[i + 1] != '\n' {
            spec_code_scan(s, i + 2, tok)
        } else {
            None
        }
    } else {
        spec_code_scan(s, i + 1, tok)
    }
}

proof fn lemma_code_scan(s: Seq<char>, i: int, tok: Seq<char>)
    requires
        tok.len() == 2,
    ensures
        spec_code_scan(s, i, tok) matches Some((c, e)) ==> i <= c && c + 2 <= e <= s.len(),
    decreases s.len() - i,
{
    if i < 0 || i > s.len() {
    } else if i < s.len() && s[i] == '\n' && spec_starts_at(s, i + 1, tok) {
    } else if spec_starts_at(s, i, tok) {
    } else if i == s.len() {
    } else if s[i] == '\\' {
        if i + 1 < s.len() && s[i + 1] != '\n' {
            lemma_code_scan(s, i + 2, tok);
        }
    } else {
        lemma_code_scan(s, i + 1, tok);
    }
}

fn code_scan(s: &[char], i: usize, tok: &[char]) -> (r: Option<(usize, usize)>)
    requires
        i <= s@.len(),
        tok@.len() == 2,
    ensures
        match r {
            Some((c, e)) => spec_code_scan(s@, i as int, tok@) == Some((c as int, e as int)),
            None => spec_code_scan(s@, i as int, tok@) is None,
        },
{
    let mut j = i;
    proof { lemma_code_scan(s@, i as int, tok@); }
    while j <= s.len()
        invariant
            i <= j,
            tok@.len() == 2,
            spec_code_scan(s@, i as int, tok@) == spec_code_scan(s@, j as int, tok@),
        decreases s@.len() + 1 - j,
    {
        if j < s.len() && s[j] == '\n' && starts_at(s, j + 1, tok) {
            return Some((j, j + 3));
        }
        if starts_at(s, j, tok) {
            return Some((j, j + 2));
        }
        if j == s.len() {
            return None;
        }
        if s[j] == '\\' {
            if j + 1 < s.len() && s[j + 1] != '\n' {
                j += 2;
            } else {
                return None;
            }
        } else {
            j += 1;
        }
    }
    None
}

/// The ranges of a script.
#[derive(Clone, Copy, PartialEq, Eq, Debug, Structural)]
pub struct ScriptMatch {
    /// 0: `@<...>@`, 1: `%<...>%`.
    pub index: usize,
    pub whole: Token,
    pub kernel: Option<Token>,
    pub kind: Option<Token>,
    pub code: Token,
}

/// The `@<...>@` script whose kernel name ends at `e` or before, for a
/// match at `p` whose `@<` is at `q`: the longest kernel name for which the
/// code is closed.
pub open spec fn spec_exec_from(s: Seq<char>, p: int, q: int, e: int) -> Option<ScriptMatch>
    decreases e - q,
{
    if e < q + 2 {
        None
    } else {
        let with_nl = if e < s.len() && s[e] == '\n' { spec_code_scan(s, e + 1, ">@"@) } else { None };
        let found = if with_nl is Some { Some((e + 1, with_nl->0)) } else {
            match spec_code_scan(s, e, ">@"@) {
                Some(r) => Some((e, r)),
                None => None,
            }
        };
        match found {
            Some((j, (c, end))) => Some(ScriptMatch {
                index: 0,
                whole: Token { start: p as usize, end: end as usize },
                kernel: Some(Token { start: (q + 2) as usize, end: e as usize }),
                kind: None,
                code: Token { start: j as usize, end: c as usize },
            }),
            None => spec_exec_from(s, p, q, e - 1),
        }
    }
}

/// The match at `p` of `(?:^|\n)@<(?:(.*)\n?)((?:\\.|[^\\])*?)(?:\n?)>@`.
pub open spec fn spec_exec_at(s: Seq<char>, p: int) -> Option<ScriptMatch> {
    let q = if p == 0 && spec_starts_at(s, 0, "@<"@) { 0 } else { p + 1 };
    if (q == 0 || (0 <= p < s.len() && s[p] == '\n')) && spec_starts_at(s, q, "@<"@) {
        spec_exec_from(s, p, q, spec_line_end(s, q + 2))
    } else {
        None
    }
}

/// A character that can be an evaluation kind: `[^\s[:alpha:]]`.
pub open spec fn spec_kind_char(c: char) -> bool {
    !spec_is_whitespace(c) && !spec_is_alpha(c)
}

/// The code of an evaluation whose kind may start at `j`: with a kind
/// character if the code is then closed, else without.
pub open spec fn spec_eval_rest(s: Seq<char>, j: int) -> Option<(Option<Token>, int, (int, int))> {
    if 0 <= j < s.len() && spec_kind_char(s[j]) && spec_code_scan(s, j + 1, ">%"@) is Some {
        Some((Some(Token { start: j as usize, end: (j + 1) as usize }), j + 1, spec_code_scan(s, j + 1, ">%"@)->0))
    } else {
        match spec_code_scan(s, j, ">%"@) {
            Some(r) => Some((None, j, r)),
            None => None,
        }
    }
}

/// The match at `p` of `%<(?:\[(.*?)\])?([^\s[:alpha:]])?((?:\\.|[^\\])*?)(?:\n?)>%`.
pub open spec fn spec_eval_at(s: Seq<char>, p: int) -> Option<ScriptMatch> {
    if !spec_starts_at(s, p, "%<"@) {
        None
    } else {
        let i = p + 2;
        let kernel = if i < s.len() && s[i] == '[' {
            match spec_find_char(s, i + 1, spec_line_end(s, i + 1), ']') {
                Some(k) => Some(k),
                None => None,
            }
        } else {
            None
        };
        let with_kernel = match kernel {
            Some(k) => spec_eval_rest(s, k + 1),
            None => None,
        };
        if kernel is Some && with_kernel is Some {
            let (kind, c0, (c, end)) = with_kernel->0;
            Some(ScriptMatch {
                index: 1,
                whole: Token { start: p as usize, end: end as usize },
                kernel: Some(Token { start: (i + 1) as usize, end: kernel->0 as usize }),
                kind,
                code: Token { start: c0 as usize, end: c as usize },
            })
        } else {
            match spec_eval_rest(s, i) {
                Some((kind, c0, (c, end))) => Some(ScriptMatch {
                    index: 1,
                    whole: Token { start: p as usize, end: end as usize },
                    kernel: None,
                    kind,
                    code: Token { start: c0 as usize, end: c as usize },
                }),
                None => None,
            }
        }
    }
}

/// The script at `p`: `@<...>@` first, then `%<...>%`.
pub open spec fn spec_script_at(s: Seq<char>, p: int) -> Option<ScriptMatch> {
    if spec_exec_at(s, p) is Some {
        spec_exec_at(s, p)
    } else {
        spec_eval_at(s, p)
    }
}

pub open spec fn script_match_wf(s: Seq<char>, m: ScriptMatch) -> bool {
    &&& m.index < 2
    &&& m.whole.start + 2 <= m.code.start <= m.code.end && m.code.end + 2 <= m.whole.end <= s.len()
    &&& m.kernel matches Some(k) ==> m.whole.start + 2 <= k.start <= k.end && k.end <= m.code.start
    &&& m.kind matches Some(k) ==> m.whole.start + 2 <= k.start && k.start + 1 == k.end && k.end <= m.code.start
    &&& m.index == 1 ==> (m.kernel matches Some(k) ==> m.whole.start + 3 == k.start && k.end + 1 <= m.code.start)
    &&& m.index == 0 ==> m.kind is None && m.kernel is Some
    &&& m.index == 0 ==> m.kernel->0.start <= m.whole.start + 3
}

/// The kernel a script runs in: `main` when no name is given; a name may
/// not hold whitespace.
pub open spec fn spec_kernel_name(name: Option<Seq<char>>) -> Option<Seq<char>> {
    match name {
        None => Some("main"@),
        Some(n) => {
            let t = spec_trim(n);
            if t.len() == 0 {
                Some("main"@)
            } else if exists|i: int| 0 <= i < t.len() && spec_is_whitespace(#[trigger] t[i]) {
                None
            } else {
                Some(t)
            }
        },
    }
}

/// The kernel named `name` (see `spec_kernel_name`).
pub fn validate_kernel_name(name: &[char]) -> (r: Option<Vec<char>>)
    ensures
        match r {
            Some(v) => spec_kernel_name(Some(name@)) == Some(v@),
            None => spec_kernel_name(Some(name@)) is None,
        },
{
    let t = trim(name);
    if t.len() == 0 {
        return Some(str_to_chars("main"));
    }
    let mut i: usize = 0;
    while i < t.len()
        invariant
            0 <= i <= t@.len(),
            t@ == spec_trim(name@),
            forall|k: int| 0 <= k < i ==> !spec_is_whitespace(#[trigger] t@[k]),
        decreases t@.len() - i,
    {
        if is_whitespace(t[i]) {
            return None;
        }
        i += 1;
    }
    Some(t)
}

/// What a script yields: its kernel, kind and code; or the report that
/// refuses it.
pub open spec fn spec_script_result(s: Seq<char>, m: ScriptMatch) -> Result<(Seq<char>, ScriptKind, Seq<char>), ReportCode> {
    let name = match m.kernel {
        Some(k) => Some(s.subrange(k.start as int, k.end as int)),
        None => None,
    };
    let kind = if m.index == 0 {
        Some(ScriptKind::Exec)
    } else {
        match m.kind {
            None => Some(ScriptKind::Eval),
            Some(k) => if s[k.start as int] == '"' {
                Some(ScriptKind::EvalText)
            } else if s[k.start as int] == '!' {
                Some(ScriptKind::EvalParse)
            } else {
                None
            },
        }
    };
    let code = spec_escape_text('\\', ">@"@, s.subrange(m.code.start as int, m.code.end as int));
    match spec_kernel_name(name) {
        None => Err(ReportCode::InvalidKernelName),
        Some(kernel) => if code.len() == 0 {
            Err(ReportCode::EmptyKernelCode)
        } else {
            match kind {
                None => Err(ReportCode::InvalidKernelKind),
                Some(k) => Ok((kernel, k, code)),
            }
        },
    }
}

/// The evaluation kinds of inline scripts, in order: the symbol that
/// selects each, and its name.
pub open spec fn spec_eval_kinds() -> Seq<(Seq<char>, Seq<char>)> {
    seq![(""@, "Eval"@), ("\""@, "Eval to text"@), ("!"@, "Eval and parse"@)]
}

pub open spec fn kinds_view(t: Seq<(String, String)>) -> Seq<(Seq<char>, Seq<char>)> {
    t.map_values(|p: (String, String)| (p.0@, p.1@))
}

/// The lines that list the kinds of `t`: ` - 'symbol' => name` each.
pub open spec fn spec_kinds_list(t: Seq<(Seq<char>, Seq<char>)>) -> Seq<char>
    decreases t.len(),
{
    if t.len() == 0 {
        Seq::empty()
    } else {
        spec_kinds_list(t.drop_last()) + "\n - '"@ + t.last().0 + "' => "@ + t.last().1
    }
}

/// The message for an evaluation kind `kind` that `t` does not hold.
pub open spec fn spec_unknown_kind_message(kind: Seq<char>, t: Seq<(Seq<char>, Seq<char>)>) -> Seq<char> {
    "Unable to find eval kind `"@ + kind + "`. Available kinds:"@ + spec_kinds_list(t)
}

/// The tokens `t` with those of script `m` added: its delimiters, its
/// kernel name (with its brackets, inline) and its kind.
pub open spec fn spec_script_tokens(s: Seq<char>, t: Seq<SemToken>, m: ScriptMatch) -> Seq<SemToken> {
    let start = if m.index == 0 && s[m.whole.start as int] == '\n' { m.whole.start + 1 } else { m.whole.start as int };
    let t1 = spec_add_token(t, start, start + 2, SemKind::ScriptSep);
    let t2 = if m.index == 0 {
        match m.kernel {
            Some(k) => spec_add_token(t1, k.start as int, k.end as int, SemKind::ScriptKernel),
            None => t1,
        }
    } else {
        let a = match m.kernel {
            Some(k) => {
                let x = spec_add_token(t1, k.start - 1, k.start as int, SemKind::ScriptKernelSep);
                let y = spec_add_token(x, k.start as int, k.end as int, SemKind::ScriptKernel);
                spec_add_token(y, k.end as int, k.end + 1, SemKind::ScriptKernelSep)
            },
            None => t1,
        };
        match m.kind {
            Some(k) => spec_add_token(a, k.start as int, k.end as int, SemKind::ScriptKind),
            None => a,
        }
    };
    spec_add_token(t2, m.whole.end - 2, m.whole.end as int, SemKind::ScriptSep)
}

/// The rule for scripts.
pub struct ScriptRule {
    /// The evaluation kinds, by symbol and name (see `spec_eval_kinds`).
    pub eval_kinds: Vec<(String, String)>,
}

impl ScriptRule {
    pub fn new() -> (r: ScriptRule)
        ensures
            kinds_view(r.eval_kinds@) == spec_eval_kinds(),
    {
        let mut eval_kinds: Vec<(String, String)> = Vec::new();
        eval_kinds.push((String::from_str(""), String::from_str("Eval")));
        eval_kinds.push((String::from_str("\""), String::from_str("Eval to text")));
        eval_kinds.push((String::from_str("!"), String::from_str("Eval and parse")));
        let r = ScriptRule { eval_kinds };
        assert(kinds_view(r.eval_kinds@) =~= spec_eval_kinds());
        r
    }

    /// The position, in the table of evaluation kinds, of the kind whose
    /// symbol is `kind`; or the message that lists the kinds there are.
    pub fn validate_kind(&self, kind: &[char]) -> (r: Result<usize, String>)
        ensures
            match r {
                Ok(i) => i < self.eval_kinds@.len() && kinds_view(self.eval_kinds@)[i as int].0 == kind@
                    && forall|j: int| 0 <= j < i ==> kinds_view(self.eval_kinds@)[j].0 != kind@,
                Err(m) => (forall|j: int| 0 <= j < self.eval_kinds@.len() ==> kinds_view(self.eval_kinds@)[j].0 != kind@)
                    && m@ == spec_unknown_kind_message(kind@, kinds_view(self.eval_kinds@)),
            },
    {
        let ghost t = kinds_view(self.eval_kinds@);
        let mut i: usize = 0;
        while i < self.eval_kinds.len()
            invariant
                0 <= i <= self.eval_kinds@.len(),
                t == kinds_view(self.eval_kinds@),
                forall|j: int| 0 <= j < i ==> t[j].0 != kind@,
            decreases self.eval_kinds@.len() - i,
        {
            let sym = str_to_chars(self.eval_kinds[i].0.as_str());
            if crate::text::chars_eq(sym.as_slice(), kind) {
                return Ok(i);
            }
            i += 1;
        }
        let mut msg: Vec<char> = Vec::new();
        push_str(&mut msg, "Unable to find eval kind `");
        push_chars(&mut msg, kind);
        push_str(&mut msg, "`. Available kinds:");
        let ghost head = msg@;
        let mut k: usize = 0;
        assert(t.subrange(0, 0) =~= Seq::<(Seq<char>, Seq<char>)>::empty());
        while k < self.eval_kinds.len()
            invariant
                0 <= k <= self.eval_kinds@.len(),
                t == kinds_view(self.eval_kinds@),
                msg@ == head + spec_kinds_list(t.subrange(0, k as int)),
            decreases self.eval_kinds@.len() - k,
        {
            let ghost before = msg@;
            push_str(&mut msg, "\n - '");
            push_str(&mut msg, self.eval_kinds[k].0.as_str());
            push_str(&mut msg, "' => ");
            push_str(&mut msg, self.eval_kinds[k].1.as_str());
            proof {
                let sub = t.subrange(0, k + 1);
                assert(sub.drop_last() =~= t.subrange(0, k as int));
                assert(sub.last() == t[k as int]);
                assert(msg@ =~= before + "\n - '"@ + t[k as int].0 + "' => "@ + t[k as int].1);
            }
            k += 1;
        }
        assert(t.subrange(0, t.len() as int) =~= t);
        Err(chars_to_string(msg.as_slice()))
    }

    fn exec_at(&self, s: &[char], p: usize) -> (r: Option<ScriptMatch>)
        ensures
            r == spec_exec_at(s@, p as int),
            r matches Some(m) ==> script_match_wf(s@, m) && m.whole.start == p,
    {
        proof { reveal_strlit("@<"); reveal_strlit(">@"); }
        let open = str_to_chars("@<");
        let tok = str_to_chars(">@");
        let q = if p == 0 && s.len() >= 2 && starts_at(s, 0, open.as_slice()) { 0 } else {
            if p >= s.len() {
                return None;
            }
            p + 1
        };
        if !(q == 0 || (p < s.len() && s[p] == '\n')) || q > s.len() || s.len() - q < 2 || !starts_at(s, q, open.as_slice()) {
            return None;
        }
        let le = line_end(s, q + 2);
        proof { lemma_line_end(s@, q + 2); }
        let mut e = le;
        let n = s.len();
        while e >= q + 2
            invariant
                q + 2 <= le <= s@.len(),
                n == s@.len(),
                p <= q <= p + 1,
                e <= le,
                tok@ == ">@"@,
                spec_exec_at(s@, p as int) == spec_exec_from(s@, p as int, q as int, e as int),
                q == 0 || (p < s@.len() && s@[p as int] == '\n' && q == p + 1),
            decreases e,
        {
            proof { reveal_strlit(">@"); }
            let mut found: Option<(usize, usize, usize)> = None;
            if e < s.len() && s[e] == '\n' {
                match code_scan(s, e + 1, tok.as_slice()) {
                    Some((c, end)) => {
                        proof { lemma_code_scan(s@, e + 1, tok@); }
                        found = Some((e + 1, c, end));
                    },
                    None => {},
                }
            }
            if found.is_none() {
                match code_scan(s, e, tok.as_slice()) {
                    Some((c, end)) => {
                        proof { lemma_code_scan(s@, e as int, tok@); }
                        found = Some((e, c, end));
                    },
                    None => {},
                }
            }
            match found {
                Some((j, c, end)) => {
                    return Some(ScriptMatch {
                        index: 0,
                        whole: Token { start: p, end },
                        kernel: Some(Token { start: q + 2, end: e }),
                        kind: None,
                        code: Token { start: j, end: c },
                    });
                },
                None => {},
            }
            assert(spec_exec_from(s@, p as int, q as int, e as int) == spec_exec_from(s@, p as int, q as int, e - 1));
            if e == q + 2 {
                assert(spec_exec_from(s@, p as int, q as int, e - 1) is None);
                return None;
            }
            e -= 1;
        }
        None
    }

    fn eval_rest(&self, s: &[char], j: usize, tok: &[char]) -> (r: Option<(Option<Token>, usize, usize, usize)>)
        requires
            j <= s@.len(),
            tok@ == ">%"@,
        ensures
            match r {
                Some((kind, c0, c, end)) => spec_eval_rest(s@, j as int) == Some((kind, c0 as int, (c as int, end as int)))
                    && j <= c0 <= c && c + 2 <= end <= s@.len()
                    && (kind matches Some(k) ==> k.start == j && k.end == j + 1 && c0 == j + 1)
                    && (kind is None ==> c0 == j),
                None => spec_eval_rest(s@, j as int) is None,
            },
    {
        proof { reveal_strlit(">%"); }
        if j < s.len() && !is_whitespace(s[j]) && !is_alpha(s[j]) {
            match code_scan(s, j + 1, tok) {
                Some((c, end)) => {
                    proof { lemma_code_scan(s@, j + 1, tok@); }
                    return Some((Some(Token { start: j, end: j + 1 }), j + 1, c, end));
                },
                None => {},
            }
        }
        match code_scan(s, j, tok) {
            Some((c, end)) => {
                proof { lemma_code_scan(s@, j as int, tok@); }
                Some((None, j, c, end))
            },
            None => None,
        }
    }

    fn eval_at(&self, s: &[char], p: usize) -> (r: Option<ScriptMatch>)
        ensures
            r == spec_eval_at(s@, p as int),
            r matches Some(m) ==> script_match_wf(s@, m) && m.whole.start == p,
    {
        proof { reveal_strlit("%<"); reveal_strlit(">%"); }
        let open = str_to_chars("%<");
        let tok = str_to_chars(">%");
        if p >= s.len() || s.len() - p < 2 || !starts_at(s, p, open.as_slice()) {
            return None;
        }
        let i = p + 2;
        let mut kernel: Option<usize> = None;
        if i < s.len() && s[i] == '[' {
            let le = line_end(s, i + 1);
            kernel = find_char(s, i + 1, le, ']');
            proof { lemma_find_char(s@, i + 1, le as int, ']'); }
        }
        match kernel {
            Some(k) => {
                match self.eval_rest(s, k + 1, tok.as_slice()) {
                    Some((kind, c0, c, end)) => {
                        return Some(ScriptMatch {
                            index: 1,
                            whole: Token { start: p, end },
                            kernel: Some(Token { start: i + 1, end: k }),
                            kind,
                            code: Token { start: c0, end: c },
                        });
                    },
                    None => {},
                }
            },
            None => {},
        }
        match self.eval_rest(s, i, tok.as_slice()) {
            Some((kind, c0, c, end)) => Some(ScriptMatch {
                index: 1,
                whole: Token { start: p, end },
                kernel: None,
                kind,
                code: Token { start: c0, end: c },
            }),
            None => None,
        }
    }

    /// The script at `p` (see `spec_script_at`).
    pub fn script_at(&self, s: &[char], p: usize) -> (r: Option<ScriptMatch>)
        ensures
            r == spec_script_at(s@, p as int),
            r matches Some(m) ==> script_match_wf(s@, m) && m.whole.start == p,
    {
        match self.exec_at(s, p) {
            Some(m) => Some(m),
            None => self.eval_at(s, p),
        }
    }

    /// The first script at or after `from`.
    pub fn find(&self, s: &[char], from: usize) -> (r: Option<ScriptMatch>)
        ensures
            match r {
                Some(m) => from <= m.whole.start && spec_script_at(s@, m.whole.start as int) == Some(m)
                    && script_match_wf(s@, m)
                    && forall|q: int| from <= q < m.whole.start ==> spec_script_at(s@, q) is None,
                None => forall|q: int| from <= q ==> spec_script_at(s@, q) is None,
            },
    {
        proof { reveal_strlit("@<"); reveal_strlit("%<"); }
        let mut p = from;
        while p < s.len()
            invariant
                from <= p,
                forall|q: int| from <= q < p ==> spec_script_at(s@, q) is None,
            decreases s@.len() - p,
        {
            match self.script_at(s, p) {
                Some(m) => return Some(m),
                None => {},
            }
            p += 1;
        }
        None
    }

    /// Checks the script `m`: gives the script to run, or the report that
    /// refuses it.
    #[verifier::spinoff_prover]
    pub fn on_match(&self, s: &[char], m: ScriptMatch, sems: &mut Semantics) -> (r: Result<Script, Report>)
        requires
            script_match_wf(s@, m),
            kinds_view(self.eval_kinds@) == spec_eval_kinds(),
            old(sems).wf(),
        ensures
            final(sems).wf(),
            match r {
                Ok(sc) => spec_script_result(s@, m) == Ok::<(Seq<char>, ScriptKind, Seq<char>), ReportCode>((sc.kernel@, sc.kind, sc.code@))
                    && sc.location == m.whole,
                Err(rep) => spec_script_result(s@, m) == Err::<(Seq<char>, ScriptKind, Seq<char>), ReportCode>(rep.code) && rep.kind == spec_report_kind(rep.code)
                    && (if rep.code == ReportCode::InvalidKernelName {
                        m.kernel == Some(rep.span)
                    } else if rep.code == ReportCode::InvalidKernelKind {
                        m.kind == Some(rep.span)
                    } else {
                        rep.span == m.whole
                    }),
            },
            r is Ok ==> final(sems).tokens@ == spec_script_tokens(s@, old(sems).tokens@, m),
            r is Err ==> final(sems).tokens@ == old(sems).tokens@,
    {
        proof { reveal_strlit(">@"); reveal_strlit("main"); }
        let kernel = match m.kernel {
            None => str_to_chars("main"),
            Some(k) => match validate_kernel_name(&s[k.start..k.end]) {
                None => {
                    return Err(Report { kind: ReportKind::Error, code: ReportCode::InvalidKernelName, span: k });
                },
                Some(n) => n,
            },
        };
        let tok = str_to_chars(">@");
        let code = escape_text('\\', tok.as_slice(), s, m.code.start, m.code.end);
        if code.len() == 0 {
            return Err(Report { kind: ReportKind::Warning, code: ReportCode::EmptyKernelCode, span: m.whole });
        }
        let kind = if m.index == 0 {
            ScriptKind::Exec
        } else {
            match m.kind {
                None => ScriptKind::Eval,
                Some(k) => {
                    proof {
                        reveal_strlit("\"");
                        reveal_strlit("!");
                        reveal_strlit("");
                        assert(s@.subrange(k.start as int, k.end as int) =~= seq![s@[k.start as int]]);
                    }
                    let v = self.validate_kind(&s[k.start..k.end]);
                    proof {
                        let t = kinds_view(self.eval_kinds@);
                        let c = s@[k.start as int];
                        assert(t[0].0 =~= Seq::<char>::empty());
                        assert(t[1].0 =~= seq!['"']);
                        assert(t[2].0 =~= seq!['!']);
                        match v {
                            Ok(i) => {
                                assert(t[i as int].0 == seq![c]);
                                assert(i != 0);
                                assert(t.len() == self.eval_kinds@.len());
                                assert(i == 1 || i == 2);
                                assert(seq![c][0] == t[i as int].0[0]);
                                assert(c == '"' || c == '!');
                                assert(i == 1 ==> c == '"');
                                assert(i == 2 ==> c == '!');
                            },
                            Err(_) => {
                                assert(t[1].0 != seq![c]);
                                assert(t[2].0 != seq![c]);
                                assert(c != '"' && c != '!');
                            },
                        }
                    }
                    match v {
                        Ok(0) => ScriptKind::Eval,
                        Ok(1) => ScriptKind::EvalText,
                        Ok(_) => ScriptKind::EvalParse,
                        Err(_) => {
                            return Err(Report { kind: ReportKind::Error, code: ReportCode::InvalidKernelKind, span: k });
                        },
                    }
                },
            }
        };
        let start = if m.index == 0 && s[m.whole.start] == '\n' { m.whole.start + 1 } else { m.whole.start };
        sems.add(start, start + 2, SemKind::ScriptSep);
        if m.index == 0 {
            match m.kernel {
                Some(k) => sems.add(k.start, k.end, SemKind::ScriptKernel),
                None => {},
            }
        } else {
            match m.kernel {
                Some(k) => {
                    sems.add(k.start - 1, k.start, SemKind::ScriptKernelSep);
                    sems.add(k.start, k.end, SemKind::ScriptKernel);
                    sems.add(k.end, k.end + 1, SemKind::ScriptKernelSep);
                },
                None => {},
            }
            match m.kind {
                Some(k) => sems.add(k.start, k.end, SemKind::ScriptKind),
                None => {},
            }
        }
        sems.add(m.whole.end - 2, m.whole.end, SemKind::ScriptSep);
        Ok(Script {
            location: m.whole,
            kernel: chars_to_string(kernel.as_slice()),
            kind,
            code: chars_to_string(code.as_slice()),
        })
    }
}

impl Script {
    /// The text that the value `result` of a script evaluated to text adds
    /// to the document: `result` normalised as parsed text is (inside a
    /// paragraph or not, after inline content or not), unless that is empty.
    pub fn result_text(&self, result: &str, in_paragraph: bool, after_inline: bool) -> (r: Option<Text>)
        ensures
            spec_process_text(result@, in_paragraph, after_inline).len() == 0 <==> r is None,
            r matches Some(t) ==> t.location == self.location
                && t.content@ == spec_process_text(result@, in_paragraph, after_inline),
    {
        let chars = str_to_chars(result);
        let content = process_text(chars.as_slice(), 0, chars.len(), in_paragraph, after_inline);
        assert(chars@.subrange(0, chars@.len() as int) =~= result@);
        if content.len() == 0 {
            None
        } else {
            Some(Text::new(self.location, chars_to_string(content.as_slice())))
        }
    }
}

} // verus!
