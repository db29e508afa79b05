//! HTML output helpers.
use vstd::prelude::*;

verus! {

/// HTML text of a character: `&`, `<`, `>` and `"` are escaped.
pub open spec fn spec_sanitize_char(c: char) -> Seq<char> {
    if c == '&' {
        "&amp;"@
    } else if c == '<' {
        "&lt;"@
    } else if c == '>' {
        "&gt;"@
    } else if c == '"' {
        "&quot;"@
    } else {
        seq![c]
    }
}

/// HTML text of `s`.
pub open spec fn spec_sanitize(s: Seq<char>) -> Seq<char>
    decreases s.len(),
{
    if s.len() == 0 {
        Seq::empty()
    } else {
        spec_sanitize(s.drop_last()) + spec_sanitize_char(s.last())
    }
}

/// HTML text holds no `<`, `>` or `"` of its own: every one of them in the
/// source is escaped.
pub proof fn law_sanitized_has_no_markup(s: Seq<char>)
    ensures
        forall|i: int| 0 <= i < spec_sanitize(s).len() ==> {
            let c = #[trigger] spec_sanitize(s)[i];
            c != '<' && c != '>' && c != '"'
        },
    decreases s.len(),
{
    reveal_strlit("&amp;");
    reveal_strlit("&lt;");
    reveal_strlit("&gt;");
    reveal_strlit("&quot;");
    if s.len() > 0 {
        law_sanitized_has_no_markup(s.drop_last());
        let a = spec_sanitize(s.drop_last());
        let b = spec_sanitize_char(s.last());
        assert forall|i: int| 0 <= i < spec_sanitize(s).len() implies {
            let c = #[trigger] spec_sanitize(s)[i];
            c != '<' && c != '>' && c != '"'
        } by {
            if i < a.len() {
                assert(spec_sanitize(s)[i] == a[i]);
            } else {
                assert(spec_sanitize(s)[i] == b[i - a.len()]);
            }
        }
    }
}

/// Text without `&`, `<`, `>` or `"` is its own HTML text.
pub proof fn law_sanitize_plain(s: Seq<char>)
    requires
        forall|i: int| 0 <= i < s.len() ==> {
            let c = #[trigger] s[i];
            c != '&' && c != '<' && c != '>' && c != '"'
        },
    ensures
        spec_sanitize(s) == s,
    decreases s.len(),
{
    if s.len() > 0 {
        law_sanitize_plain(s.drop_last());
        assert(s.drop_last().push(s.last()) =~= s);
    }
}

/// Appends the characters of `t` to `out`.
pub fn push_str(out: &mut Vec<char>, t: &str)
    ensures
        final(out)@ == old(out)@ + t@,
{
    let v = crate::interop::str_to_chars(t);
    let mut i: usize = 0;
    let ghost o = out@;
    while i < v.len()
        invariant
            0 <= i <= v@.len(),
            out@ == o + v@.subrange(0, i as int),
        decreases v@.len() - i,
    {
        out.push(v[i]);
        i += 1;
        assert(out@ =~= o + v@.subrange(0, i as int));
    }
    assert(v@.subrange(0, v@.len() as int) =~= v@);
}

/// HTML text of `s` (see `spec_sanitize`).
pub fn sanitize(s: &[char]) -> (r: Vec<char>)
    ensures
        r@ == spec_sanitize(s@),
{
    let mut r: Vec<char> = Vec::new();
    let mut i: usize = 0;
    assert(s@.subrange(0, 0) =~= Seq::<char>::empty());
    while i < s.len()
        invariant
            0 <= i <= s@.len(),
            r@ == spec_sanitize(s@.subrange(0, i as int)),
        decreases s@.len() - i,
    {
        let c = s[i];
        let ghost before = r@;
        if c == '&' {
            push_str(&mut r, "&amp;");
        } else if c == '<' {
            push_str(&mut r, "&lt;");
        } else if c == '>' {
            push_str(&mut r, "&gt;");
        } else if c == '"' {
            push_str(&mut r, "&quot;");
        } else {
            r.push(c);
        }
        proof {
            let sub = s@.subrange(0, i + 1);
            assert(sub.drop_last() =~= s@.subrange(0, i as int));
            assert(r@ =~= before + spec_sanitize_char(c));
        }
        i += 1;
    }
    assert(s@.subrange(0, s@.len() as int) =~= s@);
    r
}

/// One character of a format string: braces are kept and counted (a
/// closing one counts down, never below zero); within an odd number of open
/// braces (a key) the character is kept as it is; elsewhere it is escaped
/// as HTML text. `st` is what is written so far and the count of open
/// braces.
pub open spec fn spec_format_char_step(st: (Seq<char>, nat), c: char) -> (Seq<char>, nat) {
    let (out, b) = st;
    if c == '{' {
        (out.push(c), b + 1)
    } else if c == '}' {
        (out.push(c), if b == 0 { 0nat } else { (b - 1) as nat })
    } else if b % 2 == 1 {
        (out.push(c), b)
    } else {
        (out + spec_sanitize_char(c), b)
    }
}

pub open spec fn spec_format_run(s: Seq<char>) -> (Seq<char>, nat)
    decreases s.len(),
{
    if s.len() == 0 {
        (Seq::empty(), 0nat)
    } else {
        spec_format_char_step(spec_format_run(s.drop_last()), s.last())
    }
}

/// HTML text of the format string `s`: its text is escaped, its keys (and
/// braces) are kept.
pub open spec fn spec_sanitize_format(s: Seq<char>) -> Seq<char> {
    spec_format_run(s).0
}

/// Escapes the format string `s` as HTML text, keeping its keys (see
/// `spec_sanitize_format`).
pub fn sanitize_format(s: &[char]) -> (r: Vec<char>)
    ensures
        r@ == spec_sanitize_format(s@),
{
    let mut r: Vec<char> = Vec::new();
    let mut braces: usize = 0;
    let mut i: usize = 0;
    assert(s@.subrange(0, 0) =~= Seq::<char>::empty());
    while i < s.len()
        invariant
            0 <= i <= s@.len(),
            braces <= i,
            (r@, braces as nat) == spec_format_run(s@.subrange(0, i as int)),
        decreases s@.len() - i,
    {
        let c = s[i];
        let ghost before = r@;
        proof {
            let sub = s@.subrange(0, i + 1);
            assert(sub.drop_last() =~= s@.subrange(0, i as int));
            assert(sub.last() == c);
        }
        if c == '{' {
            r.push(c);
            braces = braces + 1;
        } else if c == '}' {
            r.push(c);
            if braces != 0 {
                braces = braces - 1;
            }
        } else if braces % 2 == 1 {
            r.push(c);
        } else {
            if c == '&' {
                push_str(&mut r, "&amp;");
            } else if c == '<' {
                push_str(&mut r, "&lt;");
            } else if c == '>' {
                push_str(&mut r, "&gt;");
            } else if c == '"' {
                push_str(&mut r, "&quot;");
            } else {
                r.push(c);
            }
            proof { assert(r@ =~= before + spec_sanitize_char(c)); }
        }
        i += 1;
    }
    assert(s@.subrange(0, s@.len() as int) =~= s@);
    r
}

/// Appends the characters of `t` to `out`.
pub fn push_chars(out: &mut Vec<char>, t: &[char])
    ensures
        final(out)@ == old(out)@ + t@,
{
    let mut i: usize = 0;
    let ghost o = out@;
    while i < t.len()
        invariant
            0 <= i <= t@.len(),
            out@ == o + t@.subrange(0, i as int),
        decreases t@.len() - i,
    {
        out.push(t[i]);
        i += 1;
        assert(out@ =~= o + t@.subrange(0, i as int));
    }
    assert(t@.subrange(0, t@.len() as int) =~= t@);
}

/// The decimal digit `d`.
pub open spec fn spec_digit(d: nat) -> char {
    if d == 0 { '0' } else if d == 1 { '1' } else if d == 2 { '2' } else if d == 3 { '3' } else if d == 4 {
        '4'
    } else if d == 5 { '5' } else if d == 6 { '6' } else if d == 7 { '7' } else if d == 8 { '8' } else { '9' }
}

/// `n` written in decimal.
pub open spec fn spec_decimal(n: nat) -> Seq<char>
    decreases n,
{
    if n < 10 {
        seq![spec_digit(n)]
    } else {
        spec_decimal(n / 10).push(spec_digit(n % 10))
    }
}

fn digit(d: usize) -> (r: char)
    requires
        d < 10,
    ensures
        r == spec_digit(d as nat),
{
    if d == 0 { '0' } else if d == 1 { '1' } else if d == 2 { '2' } else if d == 3 { '3' } else if d == 4 {
        '4'
    } else if d == 5 { '5' } else if d == 6 { '6' } else if d == 7 { '7' } else if d == 8 { '8' } else { '9' }
}

/// Appends `n` written in decimal to `out`.
pub fn push_decimal(out: &mut Vec<char>, n: usize)
    ensures
        final(out)@ == old(out)@ + spec_decimal(n as nat),
    decreases n,
{
    if n >= 10 {
        push_decimal(out, n / 10);
    }
    let ghost before = out@;
    out.push(digit(n % 10));
    proof {
        if n >= 10 {
            assert(out@ =~= old(out)@ + spec_decimal(n as nat));
        } else {
            assert(out@ =~= old(out)@ + seq![spec_digit(n as nat)]);
        }
    }
}

/// The identifier of a title in HTML: its HTML text, with `_` for spaces.
pub open spec fn spec_refname(title: Seq<char>) -> Seq<char> {
    spec_sanitize(title).map_values(|c: char| if c == ' ' { '_' } else { c })
}

/// See `spec_refname`.
pub fn refname(title: &[char]) -> (r: Vec<char>)
    ensures
        r@ == spec_refname(title@),
{
    let t = sanitize(title);
    let mut r: Vec<char> = Vec::new();
    let mut i: usize = 0;
    while i < t.len()
        invariant
            0 <= i <= t@.len(),
            r@ == t@.subrange(0, i as int).map_values(|c: char| if c == ' ' { '_' } else { c }),
        decreases t@.len() - i,
    {
        let c = t[i];
        r.push(if c == ' ' { '_' } else { c });
        i += 1;
        assert(r@ =~= t@.subrange(0, i as int).map_values(|c: char| if c == ' ' { '_' } else { c }));
    }
    assert(t@.subrange(0, t@.len() as int) =~= t@);
    r
}

} // verus!
