//! Text utilities: trimming, escape processing and text normalisation.
use vstd::prelude::*;

use crate::chars::{is_whitespace, spec_is_whitespace};

verus! {

/// Number of whitespace characters at the start of `s`.
pub open spec fn lead_ws(s: Seq<char>) -> nat
    decreases s.len(),
{
    if s.len() > 0 && spec_is_whitespace(s[0]) {
        1 + lead_ws(s.drop_first())
    } else {
        0
    }
}

/// Number of whitespace characters at the end of `s`.
pub open spec fn trail_ws(s: Seq<char>) -> nat
    decreases s.len(),
{
    if s.len() > 0 && spec_is_whitespace(s.last()) {
        1 + trail_ws(s.drop_last())
    } else {
        0
    }
}

/// `s` without its leading whitespace (`str::trim_start`).
pub open spec fn spec_trim_start(s: Seq<char>) -> Seq<char> {
    s.skip(lead_ws(s) as int)
}

/// `s` without its trailing whitespace (`str::trim_end`).
pub open spec fn spec_trim_end(s: Seq<char>) -> Seq<char> {
    s.take(s.len() - trail_ws(s))
}

/// `s` without leading nor trailing whitespace (`str::trim`).
pub open spec fn spec_trim(s: Seq<char>) -> Seq<char> {
    spec_trim_end(spec_trim_start(s))
}

pub proof fn lemma_lead_ws_bound(s: Seq<char>)
    ensures
        lead_ws(s) <= s.len(),
        lead_ws(s) < s.len() ==> !spec_is_whitespace(s[lead_ws(s) as int]),
        forall|k: int| 0 <= k < lead_ws(s) ==> spec_is_whitespace(#[trigger] s[k]),
    decreases s.len(),
{
    if s.len() > 0 && spec_is_whitespace(s[0]) {
        lemma_lead_ws_bound(s.drop_first());
        assert forall|k: int| 0 <= k < lead_ws(s) implies spec_is_whitespace(#[trigger] s[k]) by {
            if k > 0 {
                assert(s[k] == s.drop_first()[k - 1]);
            }
        }
        if lead_ws(s) < s.len() {
            assert(s[lead_ws(s) as int] == s.drop_first()[lead_ws(s.drop_first()) as int]);
        }
    }
}

pub proof fn lemma_trail_ws_bound(s: Seq<char>)
    ensures
        trail_ws(s) <= s.len(),
        trail_ws(s) < s.len() ==> !spec_is_whitespace(s[s.len() - trail_ws(s) - 1]),
        forall|k: int|
            s.len() - trail_ws(s) <= k < s.len() ==> spec_is_whitespace(#[trigger] s[k]),
    decreases s.len(),
{
    if s.len() > 0 && spec_is_whitespace(s.last()) {
        lemma_trail_ws_bound(s.drop_last());
        assert forall|k: int|
            s.len() - trail_ws(s) <= k < s.len() implies spec_is_whitespace(#[trigger] s[k]) by {
            if k < s.len() - 1 {
                assert(s[k] == s.drop_last()[k]);
            }
        }
        if trail_ws(s) < s.len() {
            assert(s[s.len() - trail_ws(s) - 1] == s.drop_last()[s.drop_last().len() - trail_ws(
                s.drop_last(),
            ) - 1]);
        }
    }
}

/// Leading whitespace is exactly the longest whitespace prefix.
proof fn lemma_lead_ws_unique(s: Seq<char>, i: int)
    requires
        0 <= i <= s.len(),
        forall|k: int| 0 <= k < i ==> spec_is_whitespace(#[trigger] s[k]),
        i == s.len() || !spec_is_whitespace(s[i]),
    ensures
        lead_ws(s) == i,
    decreases s.len(),
{
    if i > 0 {
        assert forall|k: int| 0 <= k < i - 1 implies spec_is_whitespace(
            #[trigger] s.drop_first()[k],
        ) by {
            assert(s.drop_first()[k] == s[k + 1]);
        }
        if i - 1 < s.drop_first().len() {
            assert(s.drop_first()[i - 1] == s[i]);
        }
        lemma_lead_ws_unique(s.drop_first(), i - 1);
    } else {
    }
}

/// Trailing whitespace is exactly the longest whitespace suffix.
proof fn lemma_trail_ws_unique(s: Seq<char>, e: int)
    requires
        0 <= e <= s.len(),
        forall|k: int| e <= k < s.len() ==> spec_is_whitespace(#[trigger] s[k]),
        e == 0 || !spec_is_whitespace(s[e - 1]),
    ensures
        trail_ws(s) == s.len() - e,
    decreases s.len(),
{
    if e < s.len() {
        assert forall|k: int| e <= k < s.drop_last().len() implies spec_is_whitespace(
            #[trigger] s.drop_last()[k],
        ) by {
            assert(s.drop_last()[k] == s[k]);
        }
        if e > 0 {
            assert(s.drop_last()[e - 1] == s[e - 1]);
        }
        lemma_trail_ws_unique(s.drop_last(), e);
    }
}

/// Index of the first character of `s[from..to]` that is not whitespace, or `to`.
pub fn skip_whitespace(s: &[char], from: usize, to: usize) -> (r: usize)
    requires
        from <= to <= s@.len(),
    ensures
        from <= r <= to,
        r == from + lead_ws(s@.subrange(from as int, to as int)),
{
    let mut i = from;
    while i < to && is_whitespace(s[i])
        invariant
            from <= i <= to <= s@.len(),
            forall|k: int| from <= k < i ==> spec_is_whitespace(#[trigger] s@[k]),
        decreases to - i,
    {
        i += 1;
    }
    proof {
        let sub = s@.subrange(from as int, to as int);
        assert forall|k: int| 0 <= k < i - from implies spec_is_whitespace(#[trigger] sub[k]) by {
            assert(sub[k] == s@[from + k]);
        }
        if i < to {
            assert(sub[i - from] == s@[i as int]);
        }
        lemma_lead_ws_unique(sub, i - from);
    }
    i
}

/// End of `s[from..to]` once its trailing whitespace is removed.
pub fn skip_whitespace_back(s: &[char], from: usize, to: usize) -> (r: usize)
    requires
        from <= to <= s@.len(),
    ensures
        from <= r <= to,
        r == to - trail_ws(s@.subrange(from as int, to as int)),
{
    let mut e = to;
    while e > from && is_whitespace(s[e - 1])
        invariant
            from <= e <= to <= s@.len(),
            forall|k: int| e <= k < to ==> spec_is_whitespace(#[trigger] s@[k]),
        decreases e,
    {
        e -= 1;
    }
    proof {
        let sub = s@.subrange(from as int, to as int);
        assert forall|k: int| e - from <= k < sub.len() implies spec_is_whitespace(
            #[trigger] sub[k],
        ) by {
            assert(sub[k] == s@[from + k]);
        }
        if e > from {
            assert(sub[e - from - 1] == s@[e - 1]);
        }
        lemma_trail_ws_unique(sub, e - from);
    }
    e
}

/// Bounds of `s[from..to]` without its leading, then its trailing
/// whitespace.
pub open spec fn spec_trim_bounds(s: Seq<char>, from: usize, to: usize) -> (usize, usize) {
    let a = (from + lead_ws(s.subrange(from as int, to as int))) as usize;
    (a, (to - trail_ws(s.subrange(a as int, to as int))) as usize)
}

/// Bounds `(start, end)` of `s[from..to]` once trimmed: `s[start..end]` is
/// `spec_trim(s[from..to])`.
pub fn trim_bounds(s: &[char], from: usize, to: usize) -> (r: (usize, usize))
    requires
        from <= to <= s@.len(),
    ensures
        from <= r.0 <= r.1 <= to,
        s@.subrange(r.0 as int, r.1 as int) == spec_trim(s@.subrange(from as int, to as int)),
        r == spec_trim_bounds(s@, from, to),
{
    let start = skip_whitespace(s, from, to);
    let end = skip_whitespace_back(s, start, to);
    proof {
        let sub = s@.subrange(from as int, to as int);
        assert(spec_trim_start(sub) =~= s@.subrange(start as int, to as int));
        assert(spec_trim(sub) =~= s@.subrange(start as int, end as int));
    }
    (start, end)
}

/// Copy of `s[from..to]`.
pub fn slice_to_vec(s: &[char], from: usize, to: usize) -> (r: Vec<char>)
    requires
        from <= to <= s@.len(),
    ensures
        r@ == s@.subrange(from as int, to as int),
{
    let mut r: Vec<char> = Vec::new();
    let mut i = from;
    while i < to
        invariant
            from <= i <= to <= s@.len(),
            r@ == s@.subrange(from as int, i as int),
        decreases to - i,
    {
        r.push(s[i]);
        i += 1;
    }
    r
}

/// Trimmed copy of `s` (`str::trim`).
pub fn trim(s: &[char]) -> (r: Vec<char>)
    ensures
        r@ == spec_trim(s@),
{
    let (a, b) = trim_bounds(s, 0, s.len());
    assert(s@.subrange(0, s@.len() as int) =~= s@);
    slice_to_vec(s, a, b)
}

/// Whether `s[at..]` starts with `pat`.
pub open spec fn spec_starts_at(s: Seq<char>, at: int, pat: Seq<char>) -> bool {
    0 <= at && at + pat.len() <= s.len() && s.subrange(at, at + pat.len()) == pat
}

pub fn starts_at(s: &[char], at: usize, pat: &[char]) -> (r: bool)
    ensures
        r == spec_starts_at(s@, at as int, pat@),
{
    if at > s.len() || pat.len() > s.len() - at {
        return false;
    }
    let mut k: usize = 0;
    while k < pat.len()
        invariant
            at + pat@.len() <= s@.len(),
            s@.len() == s.len(),
            0 <= k <= pat@.len(),
            forall|j: int| 0 <= j < k ==> s@[at + j] == pat@[j],
        decreases pat@.len() - k,
    {
        if s[at + k] != pat[k] {
            proof {
                assert(s@.subrange(at as int, at + pat@.len())[k as int] != pat@[k as int]);
            }
            return false;
        }
        k += 1;
    }
    assert(s@.subrange(at as int, at + pat@.len()) =~= pat@);
    true
}

/// Whether the character sequence `s` equals the string `t`.
pub fn chars_eq(s: &[char], t: &[char]) -> (r: bool)
    ensures
        r == (s@ == t@),
{
    if s.len() != t.len() {
        return false;
    }
    let r = starts_at(s, 0, t);
    assert(r ==> s@ =~= t@.subrange(0, t@.len() as int));
    assert(t@.subrange(0, t@.len() as int) =~= t@);
    assert(s@ == t@ ==> s@.subrange(0, t@.len() as int) =~= t@);
    r
}


/// `n` copies of `c`.
pub open spec fn repeat(c: char, n: nat) -> Seq<char> {
    Seq::new(n, |_i: int| c)
}

/// Appends `n` copies of `c` to `out`.
pub fn push_repeat(out: &mut Vec<char>, c: char, n: usize)
    ensures
        final(out)@ == old(out)@ + repeat(c, n as nat),
{
    let ghost start = out@;
    let mut k: usize = 0;
    while k < n
        invariant
            0 <= k <= n,
            out@ == start + repeat(c, k as nat),
        decreases n - k,
    {
        out.push(c);
        k += 1;
        assert(out@ =~= start + repeat(c, k as nat));
    }
}

/// State of the escape processor after part of its input.
pub struct EscState {
    /// Output so far.
    pub out: Seq<char>,
    /// Number of pending escape characters.
    pub escaped: nat,
    /// Number of characters of the token matched after an odd run of escapes.
    pub tok: nat,
}

pub open spec fn esc_init() -> EscState {
    EscState { out: Seq::empty(), escaped: 0, tok: 0 }
}

/// One character of escape processing: an odd run of `escape` characters
/// followed by `token` yields the token itself (and half of the escapes); any
/// other escapes are kept as backslashes.
pub open spec fn esc_step(st: EscState, c: char, escape: char, token: Seq<char>) -> EscState {
    if c == escape {
        EscState { out: st.out, escaped: st.escaped + 1, tok: st.tok }
    } else if st.escaped % 2 == 1 && st.tok < token.len() && token[st.tok as int] == c {
        if st.tok + 1 == token.len() {
            EscState {
                out: st.out + repeat(escape, st.escaped / 2) + token,
                escaped: 0,
                tok: 0,
            }
        } else {
            EscState { out: st.out, escaped: st.escaped, tok: st.tok + 1 }
        }
    } else if st.escaped != 0 {
        EscState { out: st.out + repeat('\\', st.escaped) + seq![c], escaped: 0, tok: 0 }
    } else {
        EscState { out: st.out.push(c), escaped: 0, tok: st.tok }
    }
}

pub open spec fn esc_run(s: Seq<char>, escape: char, token: Seq<char>) -> EscState
    decreases s.len(),
{
    if s.len() == 0 {
        esc_init()
    } else {
        esc_step(esc_run(s.drop_last(), escape, token), s.last(), escape, token)
    }
}

/// Escape processing of `content` once trimmed: `escape` before `token`
/// yields `token`, trailing escapes are halved.
pub open spec fn spec_escape_text(escape: char, token: Seq<char>, content: Seq<char>) -> Seq<char> {
    let st = esc_run(spec_trim(content), escape, token);
    st.out + repeat('\\', st.escaped / 2)
}

proof fn lemma_esc_run_len(s: Seq<char>, escape: char, token: Seq<char>)
    ensures
        esc_run(s, escape, token).out.len() + esc_run(s, escape, token).escaped + esc_run(s, escape, token).tok
            <= s.len(),
    decreases s.len(),
{
    if s.len() > 0 {
        lemma_esc_run_len(s.drop_last(), escape, token);
    }
}

/// Escape processing never lengthens a text.
pub proof fn lemma_escape_text_len(escape: char, token: Seq<char>, content: Seq<char>)
    ensures
        spec_escape_text(escape, token, content).len() <= content.len(),
{
    let t = spec_trim(content);
    lemma_lead_ws_bound(content);
    lemma_trail_ws_bound(spec_trim_start(content));
    lemma_esc_run_len(t, escape, token);
}

/// Where the greedy embedding of `t` in `s` that starts at `from` places
/// `t[i]`, given where it placed `t[i - 1]`.
pub open spec fn embed_start(r: Seq<usize>, i: int, from: int) -> int {
    if i == 0 { from } else { r[i - 1] + 1 }
}

/// The positions of the characters of `t`, in order, in `s[from..to]`:
/// each is the first occurrence of the character after the previous one.
/// The result stops at the first character that has no such occurrence.
pub fn embed_positions(t: &[char], s: &[char], from: usize, to: usize) -> (r: Vec<usize>)
    requires
        from <= to <= s@.len(),
    ensures
        r@.len() <= t@.len(),
        forall|i: int| 0 <= i < r@.len() ==> from <= #[trigger] r@[i] < to && s@[r@[i] as int] == t@[i],
        forall|i: int, j: int| 0 <= i < j < r@.len() ==> r@[i] < r@[j],
        forall|i: int, k: int|
            0 <= i < r@.len() && embed_start(r@, i, from as int) <= k < r@[i] ==> s@[k] != t@[i],
        r@.len() < t@.len() ==> forall|k: int|
            embed_start(r@, r@.len() as int, from as int) <= k < to ==> s@[k] != t@[r@.len() as int],
{
    let mut r: Vec<usize> = Vec::new();
    let mut j = from;
    let mut i: usize = 0;
    while i < t.len()
        invariant
            from <= j <= to <= s@.len(),
            i <= t@.len(),
            r@.len() == i,
            j == embed_start(r@, i as int, from as int),
            forall|a: int| 0 <= a < r@.len() ==> from <= #[trigger] r@[a] < to && s@[r@[a] as int] == t@[a],
            forall|a: int, b: int| 0 <= a < b < r@.len() ==> r@[a] < r@[b],
            forall|a: int, k: int|
                0 <= a < r@.len() && embed_start(r@, a, from as int) <= k < r@[a] ==> s@[k] != t@[a],
        decreases t@.len() - i,
    {
        let start = j;
        while j < to && s[j] != t[i]
            invariant
                start <= j <= to <= s@.len(),
                i < t@.len(),
                forall|k: int| start <= k < j ==> s@[k] != t@[i as int],
            decreases to - j,
        {
            j += 1;
        }
        if j == to {
            return r;
        }
        let ghost before = r@;
        r.push(j);
        proof {
            assert forall|a: int, k: int|
                0 <= a < r@.len() && embed_start(r@, a, from as int) <= k < r@[a] implies s@[k] != t@[a] by {
                if a < before.len() {
                    assert(r@[a] == before[a]);
                    if a > 0 {
                        assert(r@[a - 1] == before[a - 1]);
                    }
                }
            }
        }
        j += 1;
        i += 1;
    }
    r
}

/// Escape processing of `s[from..to]` (see `spec_escape_text`).
pub fn escape_text(escape: char, token: &[char], s: &[char], from: usize, to: usize) -> (r: Vec<
    char,
>)
    requires
        from <= to <= s@.len(),
    ensures
        r@ == spec_escape_text(escape, token@, s@.subrange(from as int, to as int)),
{
    let (a, b) = trim_bounds(s, from, to);
    let ghost t = s@.subrange(a as int, b as int);
    let mut out: Vec<char> = Vec::new();
    let mut escaped: usize = 0;
    let mut tok: usize = 0;
    let mut i = a;
    assert(t.subrange(0, 0) =~= Seq::<char>::empty());
    while i < b
        invariant
            a <= i <= b <= s@.len(),
            t == s@.subrange(a as int, b as int),
            escaped <= i - a,
            esc_run(t.subrange(0, i - a), escape, token@) == (EscState {
                out: out@,
                escaped: escaped as nat,
                tok: tok as nat,
            }),
            tok < token@.len() || (token@.len() == 0 && tok == 0),
        decreases b - i,
    {
        let c = s[i];
        let ghost st = EscState { out: out@, escaped: escaped as nat, tok: tok as nat };
        proof {
            let p = t.subrange(0, i - a + 1);
            assert(p.drop_last() =~= t.subrange(0, i - a));
            assert(p.last() == c);
            assert(esc_run(p, escape, token@) == esc_step(st, c, escape, token@));
        }
        if c == escape {
            escaped += 1;
        } else if escaped % 2 == 1 && tok < token.len() && token[tok] == c {
            if tok + 1 == token.len() {
                push_repeat(&mut out, escape, escaped / 2);
                let mut k: usize = 0;
                let ghost before = out@;
                while k < token.len()
                    invariant
                        0 <= k <= token@.len(),
                        out@ == before + token@.subrange(0, k as int),
                    decreases token@.len() - k,
                {
                    out.push(token[k]);
                    k += 1;
                    assert(out@ =~= before + token@.subrange(0, k as int));
                }
                assert(token@.subrange(0, token@.len() as int) =~= token@);
                escaped = 0;
                tok = 0;
            } else {
                tok += 1;
            }
        } else if escaped != 0 {
            push_repeat(&mut out, '\\', escaped);
            out.push(c);
            escaped = 0;
            tok = 0;
        } else {
            out.push(c);
        }
        proof {
            let nx = esc_step(st, c, escape, token@);
            assert(nx.out =~= out@);
            assert(nx == (EscState { out: out@, escaped: escaped as nat, tok: tok as nat }));
        }
        i += 1;
    }
    assert(t.subrange(0, b - a) =~= t);
    push_repeat(&mut out, '\\', escaped / 2);
    out
}


/// An ASCII whitespace character (a one-byte whitespace grapheme).
pub open spec fn spec_is_ascii_space(c: char) -> bool {
    spec_is_whitespace(c) && (c as u32) < 128
}

/// State of the text normaliser after part of its input.
pub struct TextState {
    pub out: Seq<char>,
    /// A newline was read and not yet turned into a space.
    pub pending_nl: bool,
    /// The previous character was an unescaped backslash.
    pub escaped: bool,
    /// The previous character read.
    pub prev: Option<char>,
}

pub open spec fn text_init() -> TextState {
    TextState { out: Seq::empty(), pending_nl: false, escaped: false, prev: None }
}

/// Output after a run of newlines ends on `c`: a single space separates
/// the lines, unless the output already ends in whitespace.
pub open spec fn text_flush_nl(st: TextState, c: char, after_inline: bool) -> Seq<char> {
    if st.pending_nl && c != '\n' {
        if st.out.len() > 0 {
            if !spec_is_whitespace(st.out.last()) || st.out.last() == '\n' {
                st.out.push(' ')
            } else {
                st.out
            }
        } else if after_inline {
            st.out.push(' ')
        } else {
            st.out
        }
    } else {
        st.out
    }
}

/// One character of text normalisation: newlines become single spaces,
/// runs of whitespace collapse, a backslash makes the next character literal.
pub open spec fn text_step(st: TextState, c: char, in_paragraph: bool, after_inline: bool) -> TextState {
    let out1 = text_flush_nl(st, c, after_inline);
    let nl1 = if c == '\n' { st.pending_nl } else { false };
    if st.escaped {
        TextState { out: out1.push(c), pending_nl: nl1, escaped: false, prev: Some(c) }
    } else if c == '\n' {
        TextState { out: out1, pending_nl: true, escaped: false, prev: Some(c) }
    } else if c == '\\' {
        TextState { out: out1, pending_nl: nl1, escaped: true, prev: Some(c) }
    } else if spec_is_ascii_space(c) && st.prev is None {
        TextState {
            out: if in_paragraph { out1.push(c) } else { out1 },
            pending_nl: nl1,
            escaped: false,
            prev: Some(c),
        }
    } else if spec_is_ascii_space(c) && st.prev is Some && spec_is_ascii_space(st.prev->0) {
        TextState { out: out1, pending_nl: nl1, escaped: false, prev: Some(c) }
    } else {
        TextState { out: out1.push(c), pending_nl: nl1, escaped: false, prev: Some(c) }
    }
}

pub open spec fn text_run(s: Seq<char>, in_paragraph: bool, after_inline: bool) -> TextState
    decreases s.len(),
{
    if s.len() == 0 {
        text_init()
    } else {
        text_step(text_run(s.drop_last(), in_paragraph, after_inline), s.last(), in_paragraph, after_inline)
    }
}

/// Normalised text of `s`. `in_paragraph` tells whether the text continues a
/// paragraph, `after_inline` whether that paragraph ends with an inline element.
pub open spec fn spec_process_text(s: Seq<char>, in_paragraph: bool, after_inline: bool) -> Seq<char> {
    text_run(s, in_paragraph, after_inline).out
}

fn is_ascii_space(c: char) -> (r: bool)
    ensures
        r == spec_is_ascii_space(c),
{
    is_whitespace(c) && (c as u32) < 128
}

/// Normalised text of `s[from..to]` (see `spec_process_text`).
pub fn process_text(s: &[char], from: usize, to: usize, in_paragraph: bool, after_inline: bool) -> (r: Vec<char>)
    requires
        from <= to <= s@.len(),
    ensures
        r@ == spec_process_text(s@.subrange(from as int, to as int), in_paragraph, after_inline),
{
    let ghost t = s@.subrange(from as int, to as int);
    let mut out: Vec<char> = Vec::new();
    let mut pending_nl = false;
    let mut escaped = false;
    let mut prev: Option<char> = None;
    let mut i = from;
    assert(t.subrange(0, 0) =~= Seq::<char>::empty());
    while i < to
        invariant
            from <= i <= to <= s@.len(),
            t == s@.subrange(from as int, to as int),
            text_run(t.subrange(0, i - from), in_paragraph, after_inline) == (TextState {
                out: out@,
                pending_nl,
                escaped,
                prev,
            }),
        decreases to - i,
    {
        let c = s[i];
        let ghost st = TextState { out: out@, pending_nl, escaped, prev };
        proof {
            let p = t.subrange(0, i - from + 1);
            assert(p.drop_last() =~= t.subrange(0, i - from));
            assert(p.last() == c);
            assert(text_run(p, in_paragraph, after_inline) == text_step(st, c, in_paragraph, after_inline));
        }
        if pending_nl && c != '\n' {
            if out.len() > 0 {
                let l = out[out.len() - 1];
                if !is_whitespace(l) || l == '\n' {
                    out.push(' ');
                }
            } else if after_inline {
                out.push(' ');
            }
        }
        assert(out@ =~= text_flush_nl(st, c, after_inline));
        if c != '\n' {
            pending_nl = false;
        }
        if escaped {
            out.push(c);
            escaped = false;
        } else if c == '\n' {
            pending_nl = true;
        } else if c == '\\' {
            escaped = true;
        } else if is_ascii_space(c) && prev.is_none() {
            if in_paragraph {
                out.push(c);
            }
        } else if is_ascii_space(c) && prev.is_some() && is_ascii_space(prev.unwrap()) {
        } else {
            out.push(c);
        }
        prev = Some(c);
        proof {
            let nx = text_step(st, c, in_paragraph, after_inline);
            assert(nx.out =~= out@);
        }
        i += 1;
    }
    assert(t.subrange(0, to - from) =~= t);
    out
}


/// Whether the characters of `s` spell the string `t`.
pub fn eq_str(s: &[char], t: &str) -> (r: bool)
    ensures
        r == (s@ == t@),
{
    let tv = crate::interop::str_to_chars(t);
    chars_eq(s, tv.as_slice())
}

} // verus!
