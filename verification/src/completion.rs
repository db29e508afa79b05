//! Completion snippets offered to editors: for each element, what a snippet
//! inserts, which depends on whether the completion was triggered by the
//! element's first character (already typed) or not.
use vstd::prelude::*;

use crate::compile::{push_decimal, push_str, spec_decimal};
use crate::interop::chars_to_string;

verus! {

/// A completion snippet: its label, a short description, and the text it
/// inserts.
pub struct CompletionSnippet {
    pub label: String,
    pub detail: String,
    pub insert_text: String,
}

pub open spec fn snippet_view(s: CompletionSnippet) -> (Seq<char>, Seq<char>, Seq<char>) {
    (s.label@, s.detail@, s.insert_text@)
}

pub open spec fn snippets_view(v: Seq<CompletionSnippet>) -> Seq<(Seq<char>, Seq<char>, Seq<char>)> {
    v.map_values(|s: CompletionSnippet| snippet_view(s))
}

fn snippet(label: &str, detail: &str, prefix: &str, body: &str) -> (r: CompletionSnippet)
    ensures
        snippet_view(r) == (label@, detail@, prefix@ + body@),
{
    let mut text: Vec<char> = Vec::new();
    push_str(&mut text, prefix);
    push_str(&mut text, body);
    assert(text@ =~= prefix@ + body@);
    CompletionSnippet {
        label: String::from_str(label),
        detail: String::from_str(detail),
        insert_text: chars_to_string(text.as_slice()),
    }
}

/// The text inserted before a snippet: nothing when the completion was
/// triggered by `trigger`, which is then already typed.
pub open spec fn spec_prefix(triggered: bool, trigger: Seq<char>) -> Seq<char> {
    if triggered { Seq::empty() } else { trigger }
}

/// Completions of references: `&{ref}` and `&{ref}[disp]`.
pub struct ReferenceCompletion {}

impl ReferenceCompletion {
    pub fn static_items(&self, triggered: bool) -> (r: Vec<CompletionSnippet>)
        ensures
            snippets_view(r@) == seq![
                ("&{ref}"@, "Link to reference"@, spec_prefix(triggered, "&"@) + "{${1:REFNAME}}"@),
                ("&{ref}[disp]"@, "Link to reference with display"@, spec_prefix(triggered, "&"@)
                    + "{${1:REFNAME}}[${2:DISPLAY}]"@),
            ],
    {
        let prefix = if triggered { "" } else { "&" };
        proof { reveal_strlit(""); }
        let mut r: Vec<CompletionSnippet> = Vec::new();
        r.push(snippet("&{ref}", "Link to reference", prefix, "{${1:REFNAME}}"));
        r.push(snippet("&{ref}[disp]", "Link to reference with display", prefix, "{${1:REFNAME}}[${2:DISPLAY}]"));
        assert(snippets_view(r@) =~= seq![
            ("&{ref}"@, "Link to reference"@, spec_prefix(triggered, "&"@) + "{${1:REFNAME}}"@),
            ("&{ref}[disp]"@, "Link to reference with display"@, spec_prefix(triggered, "&"@)
                + "{${1:REFNAME}}[${2:DISPLAY}]"@),
        ]);
        r
    }

    /// The documentation of the reference `name`, known as `label`, defined
    /// in `path` over `start..end`, of type `reftype`.
    pub fn get_documentation(name: &str, label: &str, path: &str, start: usize, end: usize, reftype: &str) -> (r: String)
        ensures
            r@ == "Reference `"@ + name@ + "`\n\nFull name: ["@ + label@ + "]()\n\n# Definition\n\n * **Defined in**: ["@
                + path@ + "]() ("@ + spec_decimal(start as nat) + ".."@ + spec_decimal(end as nat)
                + ")\n * **Type**: `"@ + reftype@ + "`"@,
    {
        let mut out: Vec<char> = Vec::new();
        push_str(&mut out, "Reference `");
        push_str(&mut out, name);
        push_str(&mut out, "`\n\nFull name: [");
        push_str(&mut out, label);
        push_str(&mut out, "]()\n\n# Definition\n\n * **Defined in**: [");
        push_str(&mut out, path);
        push_str(&mut out, "]() (");
        push_decimal(&mut out, start);
        push_str(&mut out, "..");
        push_decimal(&mut out, end);
        push_str(&mut out, ")\n * **Type**: `");
        push_str(&mut out, reftype);
        push_str(&mut out, "`");
        chars_to_string(out.as_slice())
    }
}

/// Completions of LaTeX: `$LaTeX$` and `$|LaTeX|$`.
pub struct LatexCompletion {}

impl LatexCompletion {
    pub fn static_items(&self, triggered: bool) -> (r: Vec<CompletionSnippet>)
        ensures
            snippets_view(r@) == seq![
                ("$LaTeX$"@, "Mathmode LaTeX"@, spec_prefix(triggered, "$"@) + "${1:LATEX}$"@),
                ("$|LaTeX|$"@, "Normal LaTeX"@, spec_prefix(triggered, "$"@) + "|${1:LATEX}|$"@),
            ],
    {
        let prefix = if triggered { "" } else { "$" };
        proof { reveal_strlit(""); }
        let mut r: Vec<CompletionSnippet> = Vec::new();
        r.push(snippet("$LaTeX$", "Mathmode LaTeX", prefix, "${1:LATEX}$"));
        r.push(snippet("$|LaTeX|$", "Normal LaTeX", prefix, "|${1:LATEX}|$"));
        assert(snippets_view(r@) =~= seq![
            ("$LaTeX$"@, "Mathmode LaTeX"@, spec_prefix(triggered, "$"@) + "${1:LATEX}$"@),
            ("$|LaTeX|$"@, "Normal LaTeX"@, spec_prefix(triggered, "$"@) + "|${1:LATEX}|$"@),
        ]);
        r
    }
}

/// Completions of lists: unnumbered `*` and numbered `-` entries.
pub struct ListCompletion {}

impl ListCompletion {
    pub fn static_items(&self) -> (r: Vec<CompletionSnippet>)
        ensures
            snippets_view(r@) == seq![
                ("*"@, "Unnumbered List"@, "* ${1:CONTENT}"@),
                ("-"@, "Numbered List"@, "- ${1:CONTENT}"@),
            ],
    {
        proof { reveal_strlit(""); }
        let mut r: Vec<CompletionSnippet> = Vec::new();
        r.push(snippet("*", "Unnumbered List", "", "* ${1:CONTENT}"));
        r.push(snippet("-", "Numbered List", "", "- ${1:CONTENT}"));
        assert(snippets_view(r@) =~= seq![
            ("*"@, "Unnumbered List"@, "* ${1:CONTENT}"@),
            ("-"@, "Numbered List"@, "- ${1:CONTENT}"@),
        ]);
        r
    }
}

/// Completions of Lua: the `:lua` block.
pub struct LuaCompletion {}

impl LuaCompletion {
    pub fn static_items(&self, triggered: bool) -> (r: Vec<CompletionSnippet>)
        ensures
            snippets_view(r@) == seq![
                (":lua"@, "Lua code block"@, spec_prefix(triggered, ":"@) + "lua\n${1:CONTENT}\nEOF"@),
            ],
    {
        let prefix = if triggered { "" } else { ":" };
        proof { reveal_strlit(""); }
        let mut r: Vec<CompletionSnippet> = Vec::new();
        r.push(snippet(":lua", "Lua code block", prefix, "lua\n${1:CONTENT}\nEOF"));
        assert(snippets_view(r@) =~= seq![
            (":lua"@, "Lua code block"@, spec_prefix(triggered, ":"@) + "lua\n${1:CONTENT}\nEOF"@),
        ]);
        r
    }
}

} // verus!
