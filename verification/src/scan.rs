//! Building blocks of the NML grammar: each function recognises one of the
//! recurring fragments of the rules' patterns.
use vstd::prelude::*;

use crate::text::{spec_starts_at, starts_at};

verus! {

/// Scan of an escaped span closed by `term`, starting at `i`: a backslash
/// takes the next character (which may not be a newline) literally, and the
/// span ends at the first unescaped occurrence of `term`. With
/// `no_brackets`, an unescaped `[` or `]` ends the scan without a match.
/// Result: the index where `term` starts, if the span is closed.
pub open spec fn spec_esc_until(s: Seq<char>, i: int, term: Seq<char>, no_brackets: bool) -> Option<int>
    decreases s.len() - i,
{
    if i < 0 || i > s.len() {
        None
    } else if spec_starts_at(s, i, term) {
        Some(i)
    } else if i == s.len() {
        None
    } else if s[i] == '\\' {
        if i + 1 < s.len() && s[i + 1] != '\n' {
            spec_esc_until(s, i + 2, term, no_brackets)
        } else {
            None
        }
    } else if no_brackets && (s[i] == '[' || s[i] == ']') {
        None
    } else {
        spec_esc_until(s, i + 1, term, no_brackets)
    }
}

pub proof fn lemma_esc_until_range(s: Seq<char>, i: int, term: Seq<char>, no_brackets: bool)
    ensures
        spec_esc_until(s, i, term, no_brackets) matches Some(k) ==> i <= k && k + term.len()
            <= s.len() && spec_starts_at(s, k, term),
    decreases s.len() - i,
{
    if i < 0 || i > s.len() {
    } else if spec_starts_at(s, i, term) {
    } else if i == s.len() {
    } else if s[i] == '\\' {
        if i + 1 < s.len() && s[i + 1] != '\n' {
            lemma_esc_until_range(s, i + 2, term, no_brackets);
        }
    } else if no_brackets && (s[i] == '[' || s[i] == ']') {
    } else {
        lemma_esc_until_range(s, i + 1, term, no_brackets);
    }
}

/// Executable `spec_esc_until`.
pub fn esc_until(s: &[char], i: usize, term: &[char], no_brackets: bool) -> (r: Option<usize>)
    requires
        i <= s@.len(),
    ensures
        r matches Some(k) ==> spec_esc_until(s@, i as int, term@, no_brackets) == Some(k as int),
        r is None ==> spec_esc_until(s@, i as int, term@, no_brackets) is None,
{
    let mut j = i;
    while j <= s.len()
        invariant
            i <= j,
            spec_esc_until(s@, i as int, term@, no_brackets) == spec_esc_until(
                s@,
                j as int,
                term@,
                no_brackets,
            ),
        decreases s@.len() + 1 - j,
    {
        if starts_at(s, j, term) {
            return Some(j);
        }
        if j == s.len() {
            return None;
        }
        if s[j] == '\\' {
            if j + 1 < s.len() && s[j + 1] != '\n' {
                j += 2;
            } else {
                return None;
            }
        } else if no_brackets && (s[j] == '[' || s[j] == ']') {
            return None;
        } else {
            j += 1;
        }
    }
    None
}

/// Index of the end of the line that contains `i`: the first `\n` at or
/// after `i`, or the end of `s`.
pub open spec fn spec_line_end(s: Seq<char>, i: int) -> int
    decreases s.len() - i,
{
    if i >= s.len() || i < 0 {
        s.len() as int
    } else if s[i] == '\n' {
        i
    } else {
        spec_line_end(s, i + 1)
    }
}

pub proof fn lemma_line_end(s: Seq<char>, i: int)
    requires
        0 <= i <= s.len(),
    ensures
        i <= spec_line_end(s, i) <= s.len(),
        spec_line_end(s, i) < s.len() ==> s[spec_line_end(s, i)] == '\n',
        forall|k: int| i <= k < spec_line_end(s, i) ==> s[k] != '\n',
    decreases s.len() - i,
{
    if i < s.len() && s[i] != '\n' {
        lemma_line_end(s, i + 1);
    }
}

pub fn line_end(s: &[char], i: usize) -> (r: usize)
    requires
        i <= s@.len(),
    ensures
        r == spec_line_end(s@, i as int),
        i <= r <= s@.len(),
{
    proof { lemma_line_end(s@, i as int); }
    let mut j = i;
    while j < s.len() && s[j] != '\n'
        invariant
            i <= j <= s@.len(),
            spec_line_end(s@, i as int) == spec_line_end(s@, j as int),
        decreases s@.len() - j,
    {
        j += 1;
    }
    j
}

/// First occurrence of `c` in `s[i..end]`.
pub open spec fn spec_find_char(s: Seq<char>, i: int, end: int, c: char) -> Option<int>
    decreases end - i,
{
    if i < 0 || i >= end || end > s.len() {
        None
    } else if s[i] == c {
        Some(i)
    } else {
        spec_find_char(s, i + 1, end, c)
    }
}

pub proof fn lemma_find_char(s: Seq<char>, i: int, end: int, c: char)
    requires
        0 <= i,
        end <= s.len(),
    ensures
        spec_find_char(s, i, end, c) matches Some(k) ==> i <= k < end && s[k] == c && forall|
            j: int,
        | i <= j < k ==> s[j] != c,
        spec_find_char(s, i, end, c) is None ==> forall|j: int| i <= j < end ==> s[j] != c,
    decreases end - i,
{
    if i < end && s[i] != c {
        lemma_find_char(s, i + 1, end, c);
    }
}

pub fn find_char(s: &[char], i: usize, end: usize, c: char) -> (r: Option<usize>)
    requires
        i <= end <= s@.len(),
    ensures
        r matches Some(k) ==> spec_find_char(s@, i as int, end as int, c) == Some(k as int),
        r is None ==> spec_find_char(s@, i as int, end as int, c) is None,
{
    let mut j = i;
    while j < end
        invariant
            i <= j <= end <= s@.len(),
            spec_find_char(s@, i as int, end as int, c) == spec_find_char(
                s@,
                j as int,
                end as int,
                c,
            ),
        decreases end - j,
    {
        if s[j] == c {
            return Some(j);
        }
        j += 1;
    }
    None
}

/// Last occurrence of `c` in `s[i..end]`.
pub open spec fn spec_rfind_char(s: Seq<char>, i: int, end: int, c: char) -> Option<int>
    decreases end - i,
{
    if i < 0 || i >= end || end > s.len() {
        None
    } else if s[end - 1] == c {
        Some(end - 1)
    } else {
        spec_rfind_char(s, i, end - 1, c)
    }
}

pub proof fn lemma_rfind_char(s: Seq<char>, i: int, end: int, c: char)
    requires
        0 <= i,
        end <= s.len(),
    ensures
        spec_rfind_char(s, i, end, c) matches Some(k) ==> i <= k < end && s[k] == c && forall|
            j: int,
        | k < j < end ==> s[j] != c,
        spec_rfind_char(s, i, end, c) is None ==> forall|j: int| i <= j < end ==> s[j] != c,
    decreases end - i,
{
    if i < end && s[end - 1] != c {
        lemma_rfind_char(s, i, end - 1, c);
    }
}

pub fn rfind_char(s: &[char], i: usize, end: usize, c: char) -> (r: Option<usize>)
    requires
        i <= end <= s@.len(),
    ensures
        r matches Some(k) ==> spec_rfind_char(s@, i as int, end as int, c) == Some(k as int),
        r is None ==> spec_rfind_char(s@, i as int, end as int, c) is None,
{
    let mut e = end;
    while e > i
        invariant
            i <= e <= end <= s@.len(),
            spec_rfind_char(s@, i as int, end as int, c) == spec_rfind_char(
                s@,
                i as int,
                e as int,
                c,
            ),
        decreases e,
    {
        if s[e - 1] == c {
            return Some(e - 1);
        }
        e -= 1;
    }
    None
}

/// `^` or `\n` before `p`: the pattern fragment `(?:^|\n)` matched at `p`.
/// Returns the index after the fragment.
pub open spec fn spec_line_start_at(s: Seq<char>, p: int) -> Option<int> {
    if p == 0 {
        Some(0)
    } else if 0 <= p < s.len() && s[p] == '\n' {
        Some(p + 1)
    } else {
        None
    }
}

pub fn line_start_at(s: &[char], p: usize) -> (r: Option<usize>)
    ensures
        r matches Some(k) ==> spec_line_start_at(s@, p as int) == Some(k as int),
        r is None ==> spec_line_start_at(s@, p as int) is None,
{
    if p == 0 {
        Some(0)
    } else if p < s.len() && s[p] == '\n' {
        Some(p + 1)
    } else {
        None
    }
}

/// Longest run of characters satisfying `[^\S\r\n]` from `i`.
pub open spec fn spec_skip_inline_space(s: Seq<char>, i: int) -> int
    decreases s.len() - i,
{
    if 0 <= i < s.len() && crate::chars::spec_is_inline_space(s[i]) {
        spec_skip_inline_space(s, i + 1)
    } else {
        i
    }
}

pub fn skip_inline_space(s: &[char], i: usize) -> (r: usize)
    requires
        i <= s@.len(),
    ensures
        r as int == spec_skip_inline_space(s@, i as int),
        i <= r <= s@.len(),
{
    let mut j = i;
    while j < s.len() && crate::chars::is_inline_space(s[j])
        invariant
            i <= j <= s@.len(),
            spec_skip_inline_space(s@, i as int) == spec_skip_inline_space(s@, j as int),
        decreases s@.len() - j,
    {
        j += 1;
    }
    j
}

} // verus!
