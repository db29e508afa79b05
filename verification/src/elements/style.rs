//! Styles: bold `**`, italic `*`, underline `__` and code `` ` `` markers,
//! each toggling its style on and off within a paragraph.
use vstd::prelude::*;

use crate::document::Token;
use crate::semantics::{spec_add_token, SemKind, Semantics};
use crate::text::eq_str;

verus! {

/// A style marker.
pub struct Style {
    pub location: Token,
    /// 0: bold, 1: italic, 2: underline, 3: code.
    pub kind: usize,
    /// Whether the marker closes the style.
    pub close: bool,
}

impl Style {
    pub fn new(location: Token, kind: usize, close: bool) -> (r: Style)
        ensures
            r.location == location,
            r.kind == kind,
            r.close == close,
    {
        Style { location, kind, close }
    }
}

/// HTML of a marker.
pub open spec fn spec_style_html(kind: usize, close: bool) -> Seq<char> {
    if kind == 0 {
        if close { "</b>"@ } else { "<b>"@ }
    } else if kind == 1 {
        if close { "</i>"@ } else { "<i>"@ }
    } else if kind == 2 {
        if close { "</u>"@ } else { "<u>"@ }
    } else {
        if close { "</em>"@ } else { "<em>"@ }
    }
}

impl Style {
    /// HTML of the marker.
    pub fn compile(&self) -> (r: String)
        requires
            self.kind < 4,
        ensures
            r@ == spec_style_html(self.kind, self.close),
    {
        let s = if self.kind == 0 {
            if self.close { "</b>" } else { "<b>" }
        } else if self.kind == 1 {
            if self.close { "</i>" } else { "<i>" }
        } else if self.kind == 2 {
            if self.close { "</u>" } else { "<u>" }
        } else {
            if self.close { "</em>" } else { "<em>" }
        };
        String::from_str(s)
    }
}

/// Which styles are open in the current paragraph, and where they opened.
pub struct StyleState {
    pub toggled: Vec<Option<Token>>,
}

/// Names of the styles.
pub open spec fn spec_style_name(kind: usize) -> Seq<char> {
    if kind == 0 {
        "Bold"@
    } else if kind == 1 {
        "Italic"@
    } else if kind == 2 {
        "Underline"@
    } else {
        "Code"@
    }
}

impl StyleState {
    pub open spec fn wf(&self) -> bool {
        self.toggled@.len() == 4
    }

    /// No style open.
    pub fn new() -> (r: StyleState)
        ensures
            r.wf(),
            forall|i: int| 0 <= i < 4 ==> r.toggled@[i] is None,
    {
        let mut toggled: Vec<Option<Token>> = Vec::new();
        toggled.push(None);
        toggled.push(None);
        toggled.push(None);
        toggled.push(None);
        StyleState { toggled }
    }

    /// Toggles style `kind` at `token`: opens it if it was closed, closes it
    /// if it was open. Returns whether the marker closes the style.
    pub fn toggle(&mut self, kind: usize, token: Token) -> (close: bool)
        requires
            old(self).wf(),
            kind < 4,
        ensures
            final(self).wf(),
            close == old(self).toggled@[kind as int] is Some,
            final(self).toggled@ == old(self).toggled@.update(
                kind as int,
                if close { None } else { Some(token) },
            ),
    {
        let close = self.toggled[kind].is_some();
        let v = if close { None } else { Some(token) };
        self.toggled.set(kind, v);
        close
    }

    /// Styles still open when the paragraph ends: each is reported as
    /// unterminated at the marker that opened it.
    pub fn unterminated(&self) -> (r: Vec<Token>)
        requires
            self.wf(),
        ensures
            r@ == self.toggled@.filter(|t: Option<Token>| t is Some).map_values(
                |t: Option<Token>| t->0,
            ),
    {
        let mut r: Vec<Token> = Vec::new();
        let mut i: usize = 0;
        while i < 4
            invariant
                0 <= i <= 4,
                self.wf(),
                r@ == self.toggled@.subrange(0, i as int).filter(|t: Option<Token>| t is Some).map_values(
                    |t: Option<Token>| t->0,
                ),
            decreases 4 - i,
        {
            let ghost sub = self.toggled@.subrange(0, i + 1);
            proof {
                assert(sub.drop_last() =~= self.toggled@.subrange(0, i as int));
                reveal_with_fuel(Seq::filter, 2);
            }
            match self.toggled[i] {
                Some(t) => {
                    r.push(t);
                },
                None => {},
            }
            proof {
                assert(r@ =~= sub.filter(|t: Option<Token>| t is Some).map_values(|t: Option<Token>| t->0));
            }
            i += 1;
        }
        assert(self.toggled@.subrange(0, 4) =~= self.toggled@);
        r
    }
}

/// Toggling a style twice at the same place leaves the state as it was, and
/// the two markers are one opening and one closing marker.
pub proof fn law_toggle_twice(s: Seq<Option<Token>>, kind: int, t: Token)
    requires
        s.len() == 4,
        0 <= kind < 4,
    ensures
        ({
            let close1 = s[kind] is Some;
            let s1 = s.update(kind, if close1 { None } else { Some(t) });
            let close2 = s1[kind] is Some;
            let s2 = s1.update(kind, if close2 { None } else { Some(t) });
            close1 != close2 && (s[kind] == Some(t) || s[kind] is None ==> s2 == s)
        }),
{
    let close1 = s[kind] is Some;
    let s1 = s.update(kind, if close1 { None } else { Some(t) });
    let close2 = s1[kind] is Some;
    let s2 = s1.update(kind, if close2 { None } else { Some(t) });
    if s[kind] == Some(t) || s[kind] is None {
        assert(s2 =~= s);
    }
}

/// The tags of the styles: a marker's opening and closing HTML are `<t>`
/// and `</t>` with the same tag `t`, which is `b`, `i`, `u` and `em` for
/// bold, italic, underline and code.
pub proof fn law_style_tags(kind: usize, close: bool)
    requires
        kind < 4,
    ensures
        spec_style_html(kind, close) == (if close { "</"@ } else { "<"@ }) + seq![
            seq!['b'],
            seq!['i'],
            seq!['u'],
            seq!['e', 'm'],
        ][kind as int] + ">"@,
{
    reveal_strlit("<");
    reveal_strlit("</");
    reveal_strlit(">");
    reveal_strlit("<b>");
    reveal_strlit("</b>");
    reveal_strlit("<i>");
    reveal_strlit("</i>");
    reveal_strlit("<u>");
    reveal_strlit("</u>");
    reveal_strlit("<em>");
    reveal_strlit("</em>");
    let t = seq![seq!['b'], seq!['i'], seq!['u'], seq!['e', 'm']][kind as int];
    assert(spec_style_html(kind, close) =~= (if close { "</"@ } else { "<"@ }) + t + ">"@);
}

/// What a marker opens in HTML: `**` bold (`<b>`), `*` italic (`<i>`), `__`
/// underline (`<u>`) and `` ` `` code (`<em>`).
pub proof fn law_marker_opens_its_tag(s: Seq<char>, p: int)
    requires
        spec_style_at(s, p) is Some,
    ensures
        ({
            let (k, l) = spec_style_at(s, p)->0;
            &&& s[p] == '*' && l == 2 ==> spec_style_html(k, false) == "<b>"@
            &&& s[p] == '*' && l == 1 ==> spec_style_html(k, false) == "<i>"@
            &&& s[p] == '_' ==> spec_style_html(k, false) == "<u>"@
            &&& s[p] == '`' ==> spec_style_html(k, false) == "<em>"@
        }),
{
}

/// The style marker at `p`: `**` (bold) before `*` (italic), then `__`
/// (underline) and `` ` `` (code). Result: the style and the marker's length.
pub open spec fn spec_style_at(s: Seq<char>, p: int) -> Option<(usize, usize)> {
    if 0 <= p && p + 1 < s.len() && s[p] == '*' && s[p + 1] == '*' {
        Some((0, 2))
    } else if 0 <= p < s.len() && s[p] == '*' {
        Some((1, 1))
    } else if 0 <= p && p + 1 < s.len() && s[p] == '_' && s[p + 1] == '_' {
        Some((2, 2))
    } else if 0 <= p < s.len() && s[p] == '`' {
        Some((3, 1))
    } else {
        None
    }
}

/// The rule for style markers.
pub struct StyleRule {}

impl StyleRule {
    pub fn new() -> (r: StyleRule) {
        StyleRule {  }
    }

    pub fn style_at(&self, s: &[char], p: usize) -> (r: Option<(usize, usize)>)
        ensures
            r == spec_style_at(s@, p as int),
    {
        if p < s.len() && s[p] == '*' {
            if p + 1 < s.len() && s[p + 1] == '*' {
                Some((0, 2))
            } else {
                Some((1, 1))
            }
        } else if p < s.len() && s[p] == '_' && p + 1 < s.len() && s[p + 1] == '_' {
            Some((2, 2))
        } else if p < s.len() && s[p] == '`' {
            Some((3, 1))
        } else {
            None
        }
    }

    /// The first marker at or after `from`: its position, style and length.
    pub fn find(&self, s: &[char], from: usize) -> (r: Option<(usize, usize, usize)>)
        ensures
            match r {
                Some((p, k, l)) => from <= p && spec_style_at(s@, p as int) == Some((k, l))
                    && forall|q: int| from <= q < p ==> spec_style_at(s@, q) is None,
                None => forall|q: int| from <= q ==> spec_style_at(s@, q) is None,
            },
    {
        let mut p = from;
        while p < s.len()
            invariant
                from <= p,
                forall|q: int| from <= q < p ==> spec_style_at(s@, q) is None,
            decreases s@.len() - p,
        {
            match self.style_at(s, p) {
                Some((k, l)) => {
                    return Some((p, k, l));
                },
                None => {},
            }
            p += 1;
        }
        None
    }

    /// Applies the marker of style `kind` over `start..start + len`: toggles
    /// the style and gives the marker element.
    pub fn on_match(
        &self,
        state: &mut StyleState,
        kind: usize,
        start: usize,
        len: usize,
        sems: &mut Semantics,
    ) -> (r: Style)
        requires
            old(state).wf(),
            old(sems).wf(),
            kind < 4,
            start + len <= usize::MAX,
        ensures
            final(state).wf(),
            final(sems).wf(),
            r.kind == kind,
            r.location == (Token { start, end: (start + len) as usize }),
            r.close == old(state).toggled@[kind as int] is Some,
            final(state).toggled@ == old(state).toggled@.update(
                kind as int,
                if r.close { None } else { Some(r.location) },
            ),
            final(sems).tokens@ == spec_add_token(old(sems).tokens@, start as int, start + len, SemKind::StyleMarker),
    {
        let token = Token { start, end: start + len };
        let close = state.toggle(kind, token);
        sems.add(start, start + len, SemKind::StyleMarker);
        Style::new(token, kind, close)
    }
}

/// The style named `name` in scripts: `bold`, `italic`, `underline` or
/// `emphasis`, with a lower or upper case initial.
pub open spec fn spec_style_from_name(name: Seq<char>) -> Option<usize> {
    if name == "bold"@ || name == "Bold"@ {
        Some(0)
    } else if name == "italic"@ || name == "Italic"@ {
        Some(1)
    } else if name == "underline"@ || name == "Underline"@ {
        Some(2)
    } else if name == "emphasis"@ || name == "Emphasis"@ {
        Some(3)
    } else {
        None
    }
}

/// Looks up a style by the name scripts give it (see
/// [`spec_style_from_name`]); `None` for an unknown name.
pub fn style_from_name(name: &[char]) -> (r: Option<usize>)
    ensures
        r == spec_style_from_name(name@),
{
    if eq_str(name, "bold") || eq_str(name, "Bold") {
        Some(0)
    } else if eq_str(name, "italic") || eq_str(name, "Italic") {
        Some(1)
    } else if eq_str(name, "underline") || eq_str(name, "Underline") {
        Some(2)
    } else if eq_str(name, "emphasis") || eq_str(name, "Emphasis") {
        Some(3)
    } else {
        None
    }
}

} // verus!
