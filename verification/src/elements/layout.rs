//! Layouts: blocks of the document arranged together, between
//! `#+LAYOUT_BEGIN[props] Name`, `#+LAYOUT_NEXT[props]` and
//! `#+LAYOUT_END[props]` lines.
use vstd::prelude::*;

use crate::chars::{is_whitespace, spec_is_whitespace};
use crate::compile::{push_chars, push_str};
use crate::document::{Report, ReportCode, ReportKind, Token};
use crate::interop::{chars_to_string, str_to_chars};
use crate::properties::{
    lookup, parse_properties, schema_view, spec_lookup, spec_parse_properties, spec_prop_error_message, PropertySpec,
};
use crate::scan::{esc_until, lemma_esc_until_range, lemma_line_end, line_end, spec_esc_until, spec_line_end};
use crate::semantics::{spec_added, SemKind, SemToken, Semantics};
use crate::text::{escape_text, spec_escape_text, spec_starts_at, spec_trim, trim_bounds};

verus! {

/// The three layout markers.
#[derive(Clone, Copy, PartialEq, Eq, Debug, Structural)]
pub enum LayoutToken {
    Begin,
    Next,
    End,
}

impl LayoutToken {
    /// The marker named `s` (`Begin`/`begin`, `Next`/`next`, `End`/`end`).
    pub fn from_str(s: &[char]) -> (r: Option<LayoutToken>)
        ensures
            r == spec_layout_token_from(s@),
    {
        if crate::text::eq_str(s, "Begin") || crate::text::eq_str(s, "begin") {
            Some(LayoutToken::Begin)
        } else if crate::text::eq_str(s, "Next") || crate::text::eq_str(s, "next") {
            Some(LayoutToken::Next)
        } else if crate::text::eq_str(s, "End") || crate::text::eq_str(s, "end") {
            Some(LayoutToken::End)
        } else {
            None
        }
    }
}

pub open spec fn spec_layout_token_from(s: Seq<char>) -> Option<LayoutToken> {
    if s == "Begin"@ || s == "begin"@ {
        Some(LayoutToken::Begin)
    } else if s == "Next"@ || s == "next"@ {
        Some(LayoutToken::Next)
    } else if s == "End"@ || s == "end"@ {
        Some(LayoutToken::End)
    } else {
        None
    }
}

/// The `center` layout of layout blocks: one block, centered, which takes no
/// properties.
pub struct CenterLayout {}

impl CenterLayout {
    pub fn name(&self) -> (r: &'static str)
        ensures
            r@ == "center"@,
    {
        "center"
    }

    /// The bounds of the number of blocks (`start`, `end`).
    pub fn expects(&self) -> (r: (usize, usize))
        ensures
            r == (1usize, 1usize),
    {
        (1, 1)
    }

    /// Checks the properties written over `props`: there must be none.
    pub fn parse_properties(&self, props: Token) -> (r: Result<(), Report>)
        ensures
            r is Ok <==> props.start == props.end,
            r matches Err(rep) ==> rep.kind == ReportKind::Error && rep.code == ReportCode::InvalidLayoutProperties
                && rep.span == props,
    {
        if props.end != props.start {
            return Err(Report { kind: ReportKind::Error, code: ReportCode::InvalidLayoutProperties, span: props });
        }
        Ok(())
    }

    /// HTML of a marker of the layout: the block opens on `Begin` and
    /// closes on `End`; `Next` writes nothing.
    pub fn compile(&self, token: LayoutToken) -> (r: String)
        ensures
            r@ == match token {
                LayoutToken::Begin => "<div style=\"margin: auto\">"@,
                LayoutToken::End => "</div>"@,
                LayoutToken::Next => Seq::<char>::empty(),
            },
    {
        match token {
            LayoutToken::Begin => String::from_str("<div style=\"margin: auto\">"),
            LayoutToken::End => String::from_str("</div>"),
            LayoutToken::Next => String::new(),
        }
    }
}

/// The layouts that documents can use.
#[derive(Clone, Copy, PartialEq, Eq, Debug, Structural)]
pub enum LayoutType {
    /// One centered block.
    Centered,
    /// Two blocks or more, side by side.
    Split,
}

impl LayoutType {
    pub open spec fn spec_expects(self) -> (usize, usize) {
        match self {
            LayoutType::Centered => (1, 1),
            LayoutType::Split => (2, usize::MAX),
        }
    }

    /// The name of the layout.
    pub fn name(&self) -> (r: &'static str)
        ensures
            r@ == match self {
                LayoutType::Centered => "Centered"@,
                LayoutType::Split => "Split"@,
            },
    {
        match self {
            LayoutType::Centered => "Centered",
            LayoutType::Split => "Split",
        }
    }

    /// Expected number of blocks, as the bounds of a range.
    pub fn expects(&self) -> (r: (usize, usize))
        ensures
            r == self.spec_expects(),
    {
        match self {
            LayoutType::Centered => (1, 1),
            LayoutType::Split => (2, usize::MAX),
        }
    }
}

/// The layouts known by name.
pub struct LayoutHolder {
    pub layouts: Vec<LayoutType>,
}

pub open spec fn spec_layout_name(t: LayoutType) -> Seq<char> {
    match t {
        LayoutType::Centered => "Centered"@,
        LayoutType::Split => "Split"@,
    }
}

impl LayoutHolder {
    /// The default layouts: `Centered` and `Split`.
    pub fn new() -> (r: LayoutHolder)
        ensures
            r.layouts@ == seq![LayoutType::Centered, LayoutType::Split],
    {
        let mut layouts: Vec<LayoutType> = Vec::new();
        layouts.push(LayoutType::Centered);
        layouts.push(LayoutType::Split);
        assert(layouts@ =~= seq![LayoutType::Centered, LayoutType::Split]);
        LayoutHolder { layouts }
    }

    /// The layout named `name`, if it is known.
    pub fn get(&self, name: &[char]) -> (r: Option<LayoutType>)
        ensures
            match r {
                Some(t) => self.layouts@.contains(t) && spec_layout_name(t) == name@,
                None => forall|i: int| 0 <= i < self.layouts@.len() ==> spec_layout_name(#[trigger] self.layouts@[i]) != name@,
            },
    {
        let mut i: usize = 0;
        while i < self.layouts.len()
            invariant
                0 <= i <= self.layouts@.len(),
                forall|j: int| 0 <= j < i ==> spec_layout_name(#[trigger] self.layouts@[j]) != name@,
            decreases self.layouts@.len() - i,
        {
            let t = self.layouts[i];
            let n = str_to_chars(t.name());
            if crate::text::chars_eq(name, n.as_slice()) {
                assert(self.layouts@[i as int] == t);
                return Some(t);
            }
            i += 1;
        }
        None
    }

    /// Adds a layout, replacing the one of the same name.
    pub fn insert(&mut self, layout: LayoutType)
        ensures
            final(self).layouts@.contains(layout),
            forall|t: LayoutType| old(self).layouts@.contains(t) && t != layout ==> final(self).layouts@.contains(t),
            final(self).layouts@ == if old(self).layouts@.contains(layout) {
                old(self).layouts@
            } else {
                old(self).layouts@.push(layout)
            },
    {
        let mut i: usize = 0;
        while i < self.layouts.len()
            invariant
                0 <= i <= self.layouts@.len(),
                self.layouts@ == old(self).layouts@,
                forall|j: int| 0 <= j < i ==> self.layouts@[j] != layout,
            decreases self.layouts@.len() - i,
        {
            if self.layouts[i] == layout {
                assert(self.layouts@[i as int] == layout);
                return;
            }
            i += 1;
        }
        let ghost before = self.layouts@;
        assert(!before.contains(layout));
        self.layouts.push(layout);
        assert(self.layouts@[before.len() as int] == layout);
        assert forall|t: LayoutType| before.contains(t) && t != layout implies self.layouts@.contains(t) by {
            let k = choose|k: int| 0 <= k < before.len() && before[k] == t;
            assert(self.layouts@[k] == t);
        }
    }
}

/// A layout marker in the document.
pub struct Layout {
    pub location: Token,
    pub layout: LayoutType,
    /// Index of the block the marker starts (or the number of blocks for `End`).
    pub id: usize,
    pub token: LayoutToken,
    /// The `style` property.
    pub style: String,
}

/// The open layouts: for each, the markers seen so far and its type.
pub struct LayoutState {
    pub stack: Vec<(Vec<Token>, LayoutType)>,
}

/// The ranges of a layout marker line.
#[derive(Clone, Copy, PartialEq, Eq, Debug, Structural)]
pub struct LayoutMatch {
    /// 0: `LAYOUT_BEGIN`, 1: `LAYOUT_NEXT`, 2: `LAYOUT_END`.
    pub index: usize,
    pub whole: Token,
    /// The `#` that starts the marker.
    pub hash: usize,
    pub props: Option<Token>,
    /// The layout name (for `LAYOUT_BEGIN`): the rest of the line.
    pub name: Option<Token>,
}

/// Marker keyword of pattern `index`.
pub open spec fn spec_keyword(index: usize) -> Seq<char> {
    if index == 0 {
        "#+LAYOUT_BEGIN"@
    } else if index == 1 {
        "#+LAYOUT_NEXT"@
    } else {
        "#+LAYOUT_END"@
    }
}

/// End of the run of whitespace other than newlines from `i` (`[^\S\n]*`).
pub open spec fn spec_skip_blank(s: Seq<char>, i: int) -> int
    decreases s.len() - i,
{
    if 0 <= i < s.len() && spec_is_whitespace(s[i]) && s[i] != '\n' {
        spec_skip_blank(s, i + 1)
    } else {
        i
    }
}

proof fn lemma_skip_blank(s: Seq<char>, i: int)
    requires
        0 <= i <= s.len(),
    ensures
        i <= spec_skip_blank(s, i) <= s.len(),
        forall|k: int| i <= k < spec_skip_blank(s, i) ==> s[k] != '\n',
    decreases s.len() - i,
{
    if i < s.len() && spec_is_whitespace(s[i]) && s[i] != '\n' {
        lemma_skip_blank(s, i + 1);
    }
}

/// Whether `i` ends a line (`$` of a multi-line pattern).
pub open spec fn spec_at_line_end(s: Seq<char>, i: int) -> bool {
    i == s.len() || (0 <= i < s.len() && s[i] == '\n')
}

/// The marker of pattern `index` whose indentation starts at `q`.
pub open spec fn spec_layout_from(s: Seq<char>, index: usize, p: int, q: int) -> Option<LayoutMatch> {
    let h = spec_skip_blank(s, q);
    let kw = spec_keyword(index);
    if !spec_starts_at(s, h, kw) {
        None
    } else {
        let k = h + kw.len();
        let props = if k < s.len() && s[k] == '[' && spec_esc_until(s, k + 1, "]"@, false) is Some {
            Some(spec_esc_until(s, k + 1, "]"@, false)->0)
        } else {
            None
        };
        if index == 0 {
            let next = match props {
                Some(e) => e + 1,
                None => k,
            };
            let le = spec_line_end(s, next);
            Some(LayoutMatch {
                index,
                whole: Token { start: p as usize, end: le as usize },
                hash: h as usize,
                props: match props {
                    Some(e) => Some(Token { start: (k + 1) as usize, end: e as usize }),
                    None => None,
                },
                name: Some(Token { start: next as usize, end: le as usize }),
            })
        } else if props is Some && spec_at_line_end(s, props->0 + 1) {
            Some(LayoutMatch {
                index,
                whole: Token { start: p as usize, end: (props->0 + 1) as usize },
                hash: h as usize,
                props: Some(Token { start: (k + 1) as usize, end: props->0 as usize }),
                name: None,
            })
        } else if spec_at_line_end(s, k) {
            Some(LayoutMatch { index, whole: Token { start: p as usize, end: k as usize }, hash: h as usize, props: None, name: None })
        } else {
            None
        }
    }
}

/// The match at `p` of the multi-line pattern
/// `(?:^|\n)(?:[^\S\n]*)#\+LAYOUT_BEGIN(?:\[...\])?(.*)` (`index` 0), or of
/// the `LAYOUT_NEXT` (1) and `LAYOUT_END` (2) patterns, which end with `$`.
pub open spec fn spec_layout_at(s: Seq<char>, index: usize, p: int) -> Option<LayoutMatch> {
    if (p == 0 || (0 < p <= s.len() && s[p - 1] == '\n')) && spec_layout_from(s, index, p, p) is Some {
        spec_layout_from(s, index, p, p)
    } else if 0 <= p < s.len() && s[p] == '\n' {
        spec_layout_from(s, index, p, p + 1)
    } else {
        None
    }
}

/// The first of the three patterns that matches at `p`.
pub open spec fn spec_any_layout_at(s: Seq<char>, p: int) -> Option<LayoutMatch> {
    if spec_layout_at(s, 0, p) is Some {
        spec_layout_at(s, 0, p)
    } else if spec_layout_at(s, 1, p) is Some {
        spec_layout_at(s, 1, p)
    } else {
        spec_layout_at(s, 2, p)
    }
}

pub open spec fn layout_match_wf(s: Seq<char>, m: LayoutMatch) -> bool {
    &&& m.index < 3
    &&& m.whole.start <= m.hash && m.hash + spec_keyword(m.index).len() <= m.whole.end <= s.len()
    &&& m.props matches Some(pr) ==> m.hash + spec_keyword(m.index).len() + 1 == pr.start <= pr.end && pr.end + 1 <= m.whole.end
    &&& (m.index == 0) == (m.name is Some)
    &&& m.name matches Some(n) ==> m.hash + spec_keyword(m.index).len() <= n.start <= n.end == m.whole.end
}

/// The properties of the two layouts: `style`, empty by default.
pub open spec fn layout_schema() -> Seq<(Seq<char>, bool, Option<Seq<char>>)> {
    seq![("style"@, true, Some(Seq::<char>::empty()))]
}

/// The rule for layouts.
pub struct LayoutRule {
    pub properties: Vec<PropertySpec>,
}

impl LayoutRule {
    pub fn new() -> (r: LayoutRule)
        ensures
            schema_view(r.properties@) == layout_schema(),
    {
        let mut properties: Vec<PropertySpec> = Vec::new();
        properties.push(PropertySpec { name: str_to_chars("style"), required: true, default: Some(Vec::new()) });
        let r = LayoutRule { properties };
        assert(schema_view(r.properties@) =~= layout_schema());
        r
    }

    fn keyword(index: usize) -> (r: Vec<char>)
        ensures
            r@ == spec_keyword(index),
    {
        if index == 0 {
            str_to_chars("#+LAYOUT_BEGIN")
        } else if index == 1 {
            str_to_chars("#+LAYOUT_NEXT")
        } else {
            str_to_chars("#+LAYOUT_END")
        }
    }

    fn layout_from(&self, s: &[char], index: usize, p: usize, q: usize) -> (r: Option<LayoutMatch>)
        requires
            q <= s@.len(),
            p <= q,
            index < 3,
        ensures
            r == spec_layout_from(s@, index, p as int, q as int),
            r matches Some(m) ==> layout_match_wf(s@, m) && m.whole.start == p,
    {
        proof { lemma_skip_blank(s@, q as int); reveal_strlit("]"); }
        let mut h = q;
        while h < s.len() && is_whitespace(s[h]) && s[h] != '\n'
            invariant
                q <= h <= s@.len(),
                spec_skip_blank(s@, q as int) == spec_skip_blank(s@, h as int),
            decreases s@.len() - h,
        {
            h += 1;
        }
        let kw = Self::keyword(index);
        if h > s.len() || kw.len() > s.len() - h || !crate::text::starts_at(s, h, kw.as_slice()) {
            return None;
        }
        let k = h + kw.len();
        let close = str_to_chars("]");
        let mut props: Option<usize> = None;
        if k < s.len() && s[k] == '[' {
            match esc_until(s, k + 1, close.as_slice(), false) {
                Some(e) => {
                    proof { lemma_esc_until_range(s@, k + 1, close@, false); }
                    props = Some(e);
                },
                None => {},
            }
        }
        if index == 0 {
            let next = match props {
                Some(e) => e + 1,
                None => k,
            };
            let le = line_end(s, next);
            Some(LayoutMatch {
                index,
                whole: Token { start: p, end: le },
                hash: h,
                props: match props {
                    Some(e) => Some(Token { start: k + 1, end: e }),
                    None => None,
                },
                name: Some(Token { start: next, end: le }),
            })
        } else {
            match props {
                Some(e) => {
                    if e + 1 == s.len() || s[e + 1] == '\n' {
                        return Some(LayoutMatch {
                            index,
                            whole: Token { start: p, end: e + 1 },
                            hash: h,
                            props: Some(Token { start: k + 1, end: e }),
                            name: None,
                        });
                    }
                },
                None => {},
            }
            if k == s.len() || s[k] == '\n' {
                Some(LayoutMatch { index, whole: Token { start: p, end: k }, hash: h, props: None, name: None })
            } else {
                None
            }
        }
    }

    /// The match of pattern `index` at `p` (see `spec_layout_at`).
    pub fn layout_at(&self, s: &[char], index: usize, p: usize) -> (r: Option<LayoutMatch>)
        requires
            index < 3,
        ensures
            r == spec_layout_at(s@, index, p as int),
            r matches Some(m) ==> layout_match_wf(s@, m) && m.whole.start == p,
    {
        if p == 0 || (p <= s.len() && s[p - 1] == '\n') {
            let m = self.layout_from(s, index, p, p);
            if m.is_some() {
                return m;
            }
        }
        if p < s.len() && s[p] == '\n' {
            self.layout_from(s, index, p, p + 1)
        } else {
            None
        }
    }

    /// The first layout marker at or after `from`.
    pub fn find(&self, s: &[char], from: usize) -> (r: Option<LayoutMatch>)
        ensures
            match r {
                Some(m) => from <= m.whole.start && spec_any_layout_at(s@, m.whole.start as int) == Some(m)
                    && layout_match_wf(s@, m)
                    && forall|q: int| from <= q < m.whole.start ==> spec_any_layout_at(s@, q) is None,
                None => forall|q: int| from <= q <= s@.len() ==> spec_any_layout_at(s@, q) is None,
            },
    {
        let mut p = from;
        while p <= s.len()
            invariant
                from <= p,
                forall|q: int| from <= q < p ==> spec_any_layout_at(s@, q) is None,
            ensures
                forall|q: int| from <= q <= s@.len() ==> spec_any_layout_at(s@, q) is None,
            decreases s@.len() + 1 - p,
        {
            let mut index: usize = 0;
            while index < 3
                invariant
                    0 <= index <= 3,
                    from <= p <= s@.len(),
                    forall|q: int| from <= q < p ==> spec_any_layout_at(s@, q) is None,
                    forall|j: usize| j < index ==> spec_layout_at(s@, j, p as int) is None,
                decreases 3 - index,
            {
                match self.layout_at(s, index, p) {
                    Some(m) => {
                        return Some(m);
                    },
                    None => {},
                }
                index += 1;
            }
            assert(spec_layout_at(s@, 0, p as int) is None);
            assert(spec_layout_at(s@, 1, p as int) is None);
            assert(spec_layout_at(s@, 2, p as int) is None);
            if p == s.len() {
                break;
            }
            p += 1;
        }
        None
    }
}


/// Mathematical form of the layout stack.
pub open spec fn stack_view(st: Seq<(Vec<Token>, LayoutType)>) -> Seq<(Seq<Token>, LayoutType)> {
    st.map_values(|e: (Vec<Token>, LayoutType)| (e.0@, e.1))
}

/// The layout named `name`, among the default layouts.
pub open spec fn spec_find_layout(name: Seq<char>) -> Option<LayoutType> {
    if name == "Centered"@ {
        Some(LayoutType::Centered)
    } else if name == "Split"@ {
        Some(LayoutType::Split)
    } else {
        None
    }
}

/// The `style` of properties written `props`.
pub open spec fn spec_layout_style(s: Seq<char>, props: Option<Token>) -> Option<Seq<char>> {
    let text = match props {
        None => Seq::<char>::empty(),
        Some(p) => spec_escape_text('\\', "]"@, s.subrange(p.start as int, p.end as int)),
    };
    match spec_parse_properties(text, layout_schema()) {
        Err(_) => None,
        Ok(e) => spec_lookup(e, "style"@),
    }
}

/// Why the properties written `props` do not fit the layout `t`, as the
/// layout says it: `None` when they do (see `spec_layout_style`). Without
/// properties, the message says that a required one is missing.
pub open spec fn spec_layout_props_message(s: Seq<char>, props: Option<Token>, t: LayoutType) -> Option<Seq<char>> {
    let text = match props {
        None => Seq::<char>::empty(),
        Some(p) => spec_escape_text('\\', "]"@, s.subrange(p.start as int, p.end as int)),
    };
    let prefix = match props {
        None => "Layout is missing required property: "@,
        Some(_) => Seq::<char>::empty(),
    };
    match spec_parse_properties(text, layout_schema()) {
        Err(e) => Some(prefix + "Failed to parse properties for layout "@ + spec_layout_name(t) + ": "@
            + spec_prop_error_message(e)),
        Ok(entries) => match spec_lookup(entries, "style"@) {
            None => Some(prefix + "Failed to parse style"@),
            Some(_) => None,
        },
    }
}

/// What the marker `m` does to the layout stack `st`: the marker's token,
/// layout, id and style, and the new stack; or the error that refuses it.
pub open spec fn spec_layout_step(
    s: Seq<char>,
    m: LayoutMatch,
    st: Seq<(Seq<Token>, LayoutType)>,
) -> Result<(LayoutToken, LayoutType, usize, Seq<char>, Seq<(Seq<Token>, LayoutType)>), ReportCode> {
    if m.index == 0 {
        let n = m.name->0;
        let name = s.subrange(n.start as int, n.end as int);
        let trimmed = spec_trim(name);
        if name.len() == 0 || trimmed.len() == 0 {
            Err(ReportCode::EmptyLayoutName)
        } else if !spec_is_whitespace(name[0]) {
            Err(ReportCode::InvalidLayoutName)
        } else {
            match spec_find_layout(trimmed) {
                None => Err(ReportCode::UnknownLayout),
                Some(t) => match spec_layout_style(s, m.props) {
                    None => Err(ReportCode::InvalidLayoutProperties),
                    Some(style) => Ok((LayoutToken::Begin, t, 0, style, st.push((seq![m.whole], t)))),
                },
            }
        }
    } else if st.len() == 0 {
        Err(ReportCode::NoActiveLayout)
    } else {
        let (tokens, t) = st.last();
        if m.index == 1 {
            if t.spec_expects().1 <= tokens.len() {
                Err(ReportCode::UnexpectedLayoutNext)
            } else {
                match spec_layout_style(s, m.props) {
                    None => Err(ReportCode::InvalidLayoutProperties),
                    Some(style) => Ok((
                        LayoutToken::Next,
                        t,
                        tokens.len() as usize,
                        style,
                        st.update(st.len() - 1, (tokens.push(m.whole), t)),
                    )),
                }
            }
        } else {
            if t.spec_expects().0 > tokens.len() {
                Err(ReportCode::UnexpectedLayoutEnd)
            } else {
                match spec_layout_style(s, m.props) {
                    None => Err(ReportCode::InvalidLayoutProperties),
                    Some(style) => Ok((LayoutToken::End, t, tokens.len() as usize, style, st.drop_last())),
                }
            }
        }
    }
}

/// What a marker pushed by a script does to the open layouts `st`: its id
/// and the new layouts, or the error that refuses it. `Next` and `End`
/// must name the layout that is open.
pub open spec fn spec_pushed_marker(
    st: Seq<(Seq<Token>, LayoutType)>,
    token: LayoutToken,
    layout: LayoutType,
    location: Token,
) -> Result<(usize, Seq<(Seq<Token>, LayoutType)>), ReportCode> {
    match token {
        LayoutToken::Begin => Ok((0, st.push((seq![location], layout)))),
        _ => if st.len() == 0 {
            Err(ReportCode::NoActiveLayout)
        } else if st.last().1 != layout {
            Err(ReportCode::LayoutMismatch)
        } else if token == LayoutToken::Next {
            if layout.spec_expects().1 <= st.last().0.len() {
                Err(ReportCode::UnexpectedLayoutNext)
            } else {
                Ok((st.last().0.len() as usize, st.update(st.len() - 1, (st.last().0.push(location), layout))))
            }
        } else {
            if layout.spec_expects().0 > st.last().0.len() {
                Err(ReportCode::UnexpectedLayoutEnd)
            } else {
                Ok((st.last().0.len() as usize, st.drop_last()))
            }
        },
    }
}

/// A script that opens a layout and closes it right away, when the closing
/// marker is accepted, leaves the open layouts as they were; the closing
/// marker counts one block.
pub proof fn law_pushed_begin_end_restores(
    st: Seq<(Seq<Token>, LayoutType)>,
    layout: LayoutType,
    b: Token,
    e: Token,
)
    requires
        spec_pushed_marker(spec_pushed_marker(st, LayoutToken::Begin, layout, b)->Ok_0.1, LayoutToken::End, layout, e) is Ok,
    ensures
        spec_pushed_marker(spec_pushed_marker(st, LayoutToken::Begin, layout, b)->Ok_0.1, LayoutToken::End, layout, e)->Ok_0
            == (1usize, st),
{
    let mid = st.push((seq![b], layout));
    assert(mid.drop_last() =~= st);
}

/// Closing a layout right after opening it, when both are accepted, leaves
/// the stack of open layouts as it was before.
pub proof fn law_begin_end_restores(
    s: Seq<char>,
    b: LayoutMatch,
    e: LayoutMatch,
    st: Seq<(Seq<Token>, LayoutType)>,
)
    requires
        b.index == 0,
        e.index == 2,
        spec_layout_step(s, b, st) is Ok,
        spec_layout_step(s, e, spec_layout_step(s, b, st)->Ok_0.4) is Ok,
    ensures
        spec_layout_step(s, e, spec_layout_step(s, b, st)->Ok_0.4)->Ok_0.4 =~= st,
{
}

/// Each accepted `LAYOUT_NEXT` numbers the next block of the innermost
/// layout: its id is the number of markers of that layout before it.
pub proof fn law_next_numbers_blocks(s: Seq<char>, m: LayoutMatch, st: Seq<(Seq<Token>, LayoutType)>)
    requires
        m.index == 1,
        spec_layout_step(s, m, st) is Ok,
    ensures
        spec_layout_step(s, m, st)->Ok_0.2 == st.last().0.len(),
        spec_layout_step(s, m, st)->Ok_0.4.last().0.len() == st.last().0.len() + 1,
        spec_layout_step(s, m, st)->Ok_0.4.len() == st.len(),
{
}

/// Markers accepted one after the other number the blocks of the layout
/// they open: `BEGIN`, then a `NEXT`, then an `END` give the ids 0, 1 and
/// 2, the `NEXT` adds a block to the layout that `BEGIN` opened, and the
/// `END` closes it, leaving the open layouts as they were.
pub proof fn law_begin_next_end_ids(
    s: Seq<char>,
    b: LayoutMatch,
    n: LayoutMatch,
    e: LayoutMatch,
    st: Seq<(Seq<Token>, LayoutType)>,
)
    requires
        b.index == 0,
        n.index == 1,
        e.index == 2,
        spec_layout_step(s, b, st) is Ok,
        spec_layout_step(s, n, spec_layout_step(s, b, st)->Ok_0.4) is Ok,
        spec_layout_step(s, e, spec_layout_step(s, n, spec_layout_step(s, b, st)->Ok_0.4)->Ok_0.4) is Ok,
    ensures
        ({
            let r1 = spec_layout_step(s, b, st)->Ok_0;
            let r2 = spec_layout_step(s, n, r1.4)->Ok_0;
            let r3 = spec_layout_step(s, e, r2.4)->Ok_0;
            &&& r1.2 == 0 && r2.2 == 1 && r3.2 == 2
            &&& r1.1 == r2.1 && r2.1 == r3.1
            &&& r2.4.last().0.len() == 2
            &&& r3.4 =~= st
        }),
{
}

impl LayoutRule {
    pub fn find_layout(name: &[char]) -> (r: Option<LayoutType>)
        ensures
            r == spec_find_layout(name@),
    {
        if crate::text::eq_str(name, "Centered") {
            Some(LayoutType::Centered)
        } else if crate::text::eq_str(name, "Split") {
            Some(LayoutType::Split)
        } else {
            None
        }
    }

    /// The `style` property of the properties written at `props` (see
    /// `spec_layout_style`).
    pub fn parse_properties(&self, s: &[char], props: Option<Token>) -> (r: Option<String>)
        requires
            schema_view(self.properties@) == layout_schema(),
            props matches Some(p) ==> p.start <= p.end <= s@.len(),
        ensures
            match r {
                Some(v) => spec_layout_style(s@, props) == Some(v@),
                None => spec_layout_style(s@, props) is None,
            },
    {
        proof { reveal_strlit("]"); }
        let text = match props {
            None => Vec::new(),
            Some(p) => {
                let close = str_to_chars("]");
                escape_text('\\', close.as_slice(), s, p.start, p.end)
            },
        };
        match parse_properties(text.as_slice(), &self.properties) {
            Err(_) => None,
            Ok(e) => {
                let name = str_to_chars("style");
                match lookup(&e, name.as_slice()) {
                    Some(v) => Some(chars_to_string(v.as_slice())),
                    None => None,
                }
            },
        }
    }

    /// The message of properties written at `props` that the layout `t`
    /// refuses (see `spec_layout_props_message`): `None` when it takes them.
    pub fn properties_message(&self, s: &[char], props: Option<Token>, t: LayoutType) -> (r: Option<String>)
        requires
            schema_view(self.properties@) == layout_schema(),
            props matches Some(p) ==> p.start <= p.end <= s@.len(),
        ensures
            match r {
                Some(m) => spec_layout_props_message(s@, props, t) == Some(m@),
                None => spec_layout_props_message(s@, props, t) is None,
            },
            r is None <==> spec_layout_style(s@, props) is Some,
    {
        proof { reveal_strlit("]"); reveal_strlit("style"); }
        let text = match props {
            None => Vec::new(),
            Some(p) => {
                let close = str_to_chars("]");
                escape_text('\\', close.as_slice(), s, p.start, p.end)
            },
        };
        let mut out: Vec<char> = Vec::new();
        if props.is_none() {
            push_str(&mut out, "Layout is missing required property: ");
        }
        let ghost prefix = out@;
        match parse_properties(text.as_slice(), &self.properties) {
            Err(e) => {
                push_str(&mut out, "Failed to parse properties for layout ");
                push_str(&mut out, t.name());
                push_str(&mut out, ": ");
                let m = e.message();
                push_chars(&mut out, m.as_slice());
                Some(chars_to_string(out.as_slice()))
            },
            Ok(e) => {
                let name = str_to_chars("style");
                match lookup(&e, name.as_slice()) {
                    Some(_) => None,
                    None => {
                        push_str(&mut out, "Failed to parse style");
                        Some(chars_to_string(out.as_slice()))
                    },
                }
            },
        }
    }

    /// Applies the marker `m` to the open layouts: gives the marker element,
    /// or the report that refuses it (and leaves the layouts as they were).
    pub fn on_match(&self, s: &[char], m: LayoutMatch, state: &mut LayoutState, sems: &mut Semantics) -> (r: Result<Layout, Report>)
        requires
            layout_match_wf(s@, m),
            schema_view(self.properties@) == layout_schema(),
            old(sems).wf(),
        ensures
            final(sems).wf(),
            match r {
                Ok(l) => spec_layout_step(s@, m, stack_view(old(state).stack@)) == Ok::<(LayoutToken, LayoutType, usize, Seq<char>, Seq<(Seq<Token>, LayoutType)>), ReportCode>((
                    l.token,
                    l.layout,
                    l.id,
                    l.style@,
                    stack_view(final(state).stack@),
                )) && l.location == m.whole,
                Err(rep) => spec_layout_step(s@, m, stack_view(old(state).stack@)) == Err::<(LayoutToken, LayoutType, usize, Seq<char>, Seq<(Seq<Token>, LayoutType)>), ReportCode>(rep.code)
                    && final(state).stack@ == old(state).stack@ && rep.kind == ReportKind::Error
                    && rep.span == spec_layout_report_span(m, rep.code),
            },
    {
        let ghost st0 = stack_view(state.stack@);
        let kwlen = if m.index == 0 { 14 } else if m.index == 1 { 13 } else { 12 };
        proof {
            reveal_strlit("#+LAYOUT_BEGIN");
            reveal_strlit("#+LAYOUT_NEXT");
            reveal_strlit("#+LAYOUT_END");
        }
        assert(kwlen == spec_keyword(m.index).len());
        if m.index == 0 {
            let n = m.name.unwrap();
            let (ta, tb) = trim_bounds(s, n.start, n.end);
            if n.start == n.end || ta == tb {
                return Err(Report { kind: ReportKind::Error, code: ReportCode::EmptyLayoutName, span: n });
            }
            if !is_whitespace(s[n.start]) {
                return Err(Report { kind: ReportKind::Error, code: ReportCode::InvalidLayoutName, span: n });
            }
            let t = match Self::find_layout(&s[ta..tb]) {
                None => {
                    return Err(Report { kind: ReportKind::Error, code: ReportCode::UnknownLayout, span: n });
                },
                Some(t) => t,
            };
            let style = match self.parse_properties(s, m.props) {
                None => {
                    let span = match m.props {
                        Some(p) => p,
                        None => m.whole,
                    };
                    return Err(Report { kind: ReportKind::Error, code: ReportCode::InvalidLayoutProperties, span });
                },
                Some(st) => st,
            };
            let mut tokens: Vec<Token> = Vec::new();
            tokens.push(m.whole);
            assert(tokens@ =~= seq![m.whole]);
            let ghost before = state.stack@;
            state.stack.push((tokens, t));
            assert(stack_view(state.stack@) =~= st0.push((seq![m.whole], t)));
            self.add_tokens(m, kwlen, sems);
            return Ok(Layout { location: m.whole, layout: t, id: 0, token: LayoutToken::Begin, style });
        }
        let depth = state.stack.len();
        if depth == 0 {
            return Err(Report { kind: ReportKind::Error, code: ReportCode::NoActiveLayout, span: m.whole });
        }
        let t = state.stack[depth - 1].1;
        let ntok = state.stack[depth - 1].0.len();
        assert(st0.last() == (state.stack@[depth - 1].0@, t));
        let (lo, hi) = t.expects();
        if m.index == 1 {
            if hi <= ntok {
                return Err(Report { kind: ReportKind::Error, code: ReportCode::UnexpectedLayoutNext, span: m.whole });
            }
        } else if lo > ntok {
            return Err(Report { kind: ReportKind::Error, code: ReportCode::UnexpectedLayoutEnd, span: m.whole });
        }
        let style = match self.parse_properties(s, m.props) {
            None => {
                let span = match m.props {
                    Some(p) => p,
                    None => m.whole,
                };
                return Err(Report { kind: ReportKind::Error, code: ReportCode::InvalidLayoutProperties, span });
            },
            Some(st) => st,
        };
        self.add_tokens(m, kwlen, sems);
        if m.index == 1 {
            let (mut tokens, tt) = state.stack.pop().unwrap();
            let ghost rest = state.stack@;
            tokens.push(m.whole);
            state.stack.push((tokens, tt));
            assert(stack_view(state.stack@) =~= st0.update(st0.len() - 1, (st0.last().0.push(m.whole), t)));
            Ok(Layout { location: m.whole, layout: t, id: ntok, token: LayoutToken::Next, style })
        } else {
            let _ = state.stack.pop();
            assert(stack_view(state.stack@) =~= st0.drop_last());
            Ok(Layout { location: m.whole, layout: t, id: ntok, token: LayoutToken::End, style })
        }
    }

    fn add_tokens(&self, m: LayoutMatch, kwlen: usize, sems: &mut Semantics)
        requires
            old(sems).wf(),
            m.hash + kwlen <= usize::MAX,
            2 <= kwlen,
            m.props matches Some(pr) ==> m.hash + kwlen + 1 == pr.start <= pr.end < usize::MAX,
        ensures
            final(sems).wf(),
            final(sems).tokens@ == spec_layout_tokens(old(sems).tokens@, m, kwlen),
    {
        sems.add(m.hash, m.hash + 2, SemKind::LayoutSep);
        sems.add(m.hash + 2, m.hash + kwlen, SemKind::LayoutToken);
        match m.props {
            Some(p) => {
                sems.add(p.start - 1, p.start, SemKind::LayoutPropsSep);
                sems.add(p.start, p.end, SemKind::LayoutProps);
                sems.add(p.end, p.end + 1, SemKind::LayoutPropsSep);
            },
            None => {},
        }
        match m.name {
            Some(n) => sems.add(n.start, n.end, SemKind::LayoutType),
            None => {},
        }
    }
}

/// The tokens `t` with those of the layout marker `m`, whose keyword is
/// `kwlen` long, added: the `#+`, the keyword, the brackets and text of the
/// properties, and the layout name.
pub open spec fn spec_layout_tokens(t: Seq<SemToken>, m: LayoutMatch, kwlen: usize) -> Seq<SemToken> {
    let t1 = spec_added(t, SemToken { start: m.hash, end: (m.hash + 2) as usize, kind: SemKind::LayoutSep });
    let t2 = spec_added(t1, SemToken { start: (m.hash + 2) as usize, end: (m.hash + kwlen) as usize, kind: SemKind::LayoutToken });
    let t3 = match m.props {
        Some(p) => {
            let a = spec_added(t2, SemToken { start: (p.start - 1) as usize, end: p.start, kind: SemKind::LayoutPropsSep });
            let b = spec_added(a, SemToken { start: p.start, end: p.end, kind: SemKind::LayoutProps });
            spec_added(b, SemToken { start: p.end, end: (p.end + 1) as usize, kind: SemKind::LayoutPropsSep })
        },
        None => t2,
    };
    match m.name {
        Some(n) => spec_added(t3, SemToken { start: n.start, end: n.end, kind: SemKind::LayoutType }),
        None => t3,
    }
}

/// Where a refused layout marker `m` is reported: on its name for a name
/// that is missing, invalid or unknown, on its properties for invalid
/// properties, and on the whole marker otherwise.
pub open spec fn spec_layout_report_span(m: LayoutMatch, code: ReportCode) -> Token {
    if code == ReportCode::EmptyLayoutName || code == ReportCode::InvalidLayoutName || code == ReportCode::UnknownLayout {
        match m.name {
            Some(n) => n,
            None => m.whole,
        }
    } else if code == ReportCode::InvalidLayoutProperties {
        match m.props {
            Some(p) => p,
            None => m.whole,
        }
    } else {
        m.whole
    }
}

/// HTML of a layout marker with its `style` property.
pub open spec fn spec_layout_html(layout: LayoutType, token: LayoutToken, style: Seq<char>) -> Seq<char> {
    let attr = if style.len() == 0 { Seq::<char>::empty() } else { " style="@ + crate::compile::spec_sanitize(style) };
    match (layout, token) {
        (LayoutType::Centered, LayoutToken::Begin) => "<div class=\"centered\""@ + attr + ">"@,
        (LayoutType::Centered, _) => "</div>"@,
        (LayoutType::Split, LayoutToken::Begin) => "<div class=\"split-container\"><div class=\"split\""@ + attr + ">"@,
        (LayoutType::Split, LayoutToken::Next) => "</div><div class=\"split\""@ + attr + ">"@,
        (LayoutType::Split, LayoutToken::End) => "</div></div>"@,
    }
}

/// Number of opening tags in HTML text `s`: a `<` not followed by `/`.
pub open spec fn spec_opening_tags(s: Seq<char>) -> nat
    decreases s.len(),
{
    if s.len() < 2 {
        0
    } else {
        (if s[0] == '<' && s[1] != '/' { 1nat } else { 0nat }) + spec_opening_tags(s.drop_first())
    }
}

/// Number of closing tags in HTML text `s`: a `<` followed by `/`.
pub open spec fn spec_closing_tags(s: Seq<char>) -> nat
    decreases s.len(),
{
    if s.len() < 2 {
        0
    } else {
        (if s[0] == '<' && s[1] == '/' { 1nat } else { 0nat }) + spec_closing_tags(s.drop_first())
    }
}

proof fn lemma_no_tags(s: Seq<char>)
    requires
        forall|i: int| 0 <= i < s.len() ==> s[i] != '<',
    ensures
        spec_opening_tags(s) == 0,
        spec_closing_tags(s) == 0,
    decreases s.len(),
{
    if s.len() >= 2 {
        lemma_no_tags(s.drop_first());
    }
}

proof fn lemma_tags_concat(a: Seq<char>, b: Seq<char>)
    requires
        a.len() > 0,
        a.last() != '<',
    ensures
        spec_opening_tags(a + b) == spec_opening_tags(a) + spec_opening_tags(b),
        spec_closing_tags(a + b) == spec_closing_tags(a) + spec_closing_tags(b),
    decreases a.len(),
{
    if a.len() == 1 {
        if b.len() > 0 {
            assert((a + b).drop_first() =~= b);
        }
    } else {
        assert((a + b).drop_first() =~= a.drop_first() + b);
        lemma_tags_concat(a.drop_first(), b);
    }
}

/// A single tag `<...>` with no other `<` in it.
proof fn lemma_one_tag(s: Seq<char>)
    requires
        s.len() >= 2,
        s[0] == '<',
        forall|i: int| 1 <= i < s.len() ==> s[i] != '<',
    ensures
        spec_opening_tags(s) == (if s[1] == '/' { 0nat } else { 1nat }),
        spec_closing_tags(s) == (if s[1] == '/' { 1nat } else { 0nat }),
{
    assert forall|i: int| 0 <= i < s.drop_first().len() implies s.drop_first()[i] != '<' by {
        assert(s.drop_first()[i] == s[i + 1]);
    }
    lemma_no_tags(s.drop_first());
}

proof fn lemma_attr_no_tags(style: Seq<char>)
    ensures
        ({
            let attr = if style.len() == 0 { Seq::<char>::empty() } else { " style="@ + crate::compile::spec_sanitize(style) };
            &&& spec_opening_tags(attr + ">"@) == 0
            &&& spec_closing_tags(attr + ">"@) == 0
        }),
{
    reveal_strlit(" style=");
    reveal_strlit(">");
    let san = crate::compile::spec_sanitize(style);
    crate::compile::law_sanitized_has_no_markup(style);
    let attr = if style.len() == 0 { Seq::<char>::empty() } else { " style="@ + san };
    let t = attr + ">"@;
    assert forall|i: int| 0 <= i < t.len() implies t[i] != '<' by {
        if style.len() != 0 && 7 <= i < 7 + san.len() {
            assert(t[i] == san[i - 7]);
        }
    }
    lemma_no_tags(t);
}

/// The `div`s of a layout balance: the closing tags of its
/// `#+LAYOUT_END` close exactly what its `#+LAYOUT_BEGIN` opens (the split
/// container and its first block for a split layout, one block for a
/// centered one), neither marker holds a tag of the other kind, and each
/// `#+LAYOUT_NEXT` of a split layout closes one block and opens the next.
pub proof fn law_layout_tags_balance(layout: LayoutType, style: Seq<char>, end_style: Seq<char>)
    ensures
        spec_opening_tags(spec_layout_html(layout, LayoutToken::Begin, style))
            == spec_closing_tags(spec_layout_html(layout, LayoutToken::End, end_style)),
        spec_opening_tags(spec_layout_html(layout, LayoutToken::Begin, style)) == (if layout == LayoutType::Split { 2nat } else { 1nat }),
        spec_closing_tags(spec_layout_html(layout, LayoutToken::Begin, style)) == 0,
        spec_opening_tags(spec_layout_html(layout, LayoutToken::End, end_style)) == 0,
        layout == LayoutType::Split ==> spec_opening_tags(spec_layout_html(layout, LayoutToken::Next, style)) == 1
            && spec_closing_tags(spec_layout_html(layout, LayoutToken::Next, style)) == 1,
{
    reveal_strlit("<div class=\"centered\"");
    reveal_strlit("</div>");
    reveal_strlit("<div class=\"split-container\"><div class=\"split\"");
    reveal_strlit("<div class=\"split-container\">");
    reveal_strlit("<div class=\"split\"");
    reveal_strlit("</div><div class=\"split\"");
    reveal_strlit("</div></div>");
    lemma_attr_no_tags(style);
    let attr = if style.len() == 0 { Seq::<char>::empty() } else { " style="@ + crate::compile::spec_sanitize(style) };
    let tail = attr + ">"@;
    let close = "</div>"@;
    lemma_one_tag(close);
    let centered = "<div class=\"centered\""@;
    lemma_one_tag(centered);
    lemma_tags_concat(centered, tail);
    assert(centered + attr + ">"@ =~= centered + tail);
    let container = "<div class=\"split-container\">"@;
    let split = "<div class=\"split\""@;
    lemma_one_tag(container);
    lemma_one_tag(split);
    lemma_tags_concat(container, split);
    lemma_tags_concat(container + split, tail);
    assert("<div class=\"split-container\"><div class=\"split\""@ =~= container + split);
    assert("<div class=\"split-container\"><div class=\"split\""@ + attr + ">"@ =~= (container + split) + tail);
    lemma_tags_concat(close, split);
    lemma_tags_concat(close + split, tail);
    assert("</div><div class=\"split\""@ =~= close + split);
    assert("</div><div class=\"split\""@ + attr + ">"@ =~= (close + split) + tail);
    lemma_tags_concat(close, close);
    assert("</div></div>"@ =~= close + close);
}

/// A marker's `style` property goes into the tag it opens: with a non-empty
/// style the HTML is the HTML without one with ` style=` and the style's
/// HTML text added before the closing `>`. A marker that opens nothing
/// (`#+LAYOUT_END`, and `#+LAYOUT_NEXT` of a centered layout) ignores it.
pub proof fn law_layout_style(layout: LayoutType, token: LayoutToken, style: Seq<char>)
    requires
        style.len() > 0,
    ensures
        ({
            let plain = spec_layout_html(layout, token, Seq::empty());
            let styled = spec_layout_html(layout, token, style);
            if token == LayoutToken::End || (layout == LayoutType::Centered && token == LayoutToken::Next) {
                styled == plain
            } else {
                &&& plain.len() > 0
                &&& plain.last() == '>'
                &&& styled == plain.drop_last() + " style="@ + crate::compile::spec_sanitize(style) + ">"@
            }
        }),
{
    reveal_strlit(">");
    let a = " style="@ + crate::compile::spec_sanitize(style);
    let plain = spec_layout_html(layout, token, Seq::empty());
    let styled = spec_layout_html(layout, token, style);
    match (layout, token) {
        (LayoutType::Centered, LayoutToken::Begin) => {
            let h = "<div class=\"centered\""@;
            assert(plain =~= h + ">"@);
            assert(plain.drop_last() =~= h);
            assert(styled =~= h + a + ">"@);
        },
        (LayoutType::Split, LayoutToken::Begin) => {
            let h = "<div class=\"split-container\"><div class=\"split\""@;
            assert(plain =~= h + ">"@);
            assert(plain.drop_last() =~= h);
            assert(styled =~= h + a + ">"@);
        },
        (LayoutType::Split, LayoutToken::Next) => {
            let h = "</div><div class=\"split\""@;
            assert(plain =~= h + ">"@);
            assert(plain.drop_last() =~= h);
            assert(styled =~= h + a + ">"@);
        },
        _ => {},
    }
}

impl Layout {
    /// HTML of the marker. A centered layout has no `LAYOUT_NEXT` marker.
    pub fn compile(&self) -> (r: String)
        requires
            !(self.layout == LayoutType::Centered && self.token == LayoutToken::Next),
        ensures
            r@ == spec_layout_html(self.layout, self.token, self.style@),
    {
        let style_chars = str_to_chars(self.style.as_str());
        let mut attr: Vec<char> = Vec::new();
        if style_chars.len() > 0 {
            attr = str_to_chars(" style=");
            let san = crate::compile::sanitize(style_chars.as_slice());
            let mut i: usize = 0;
            let ghost a0 = attr@;
            while i < san.len()
                invariant
                    0 <= i <= san@.len(),
                    attr@ == a0 + san@.subrange(0, i as int),
                decreases san@.len() - i,
            {
                attr.push(san[i]);
                i += 1;
                assert(attr@ =~= a0 + san@.subrange(0, i as int));
            }
            assert(san@.subrange(0, san@.len() as int) =~= san@);
        }
        let attr_s = chars_to_string(attr.as_slice());
        match (self.layout, self.token) {
            (LayoutType::Centered, LayoutToken::Begin) => String::from_str("<div class=\"centered\"").concat(attr_s.as_str()).concat(">"),
            (LayoutType::Centered, _) => String::from_str("</div>"),
            (LayoutType::Split, LayoutToken::Begin) => String::from_str("<div class=\"split-container\"><div class=\"split\"").concat(attr_s.as_str()).concat(">"),
            (LayoutType::Split, LayoutToken::Next) => String::from_str("</div><div class=\"split\"").concat(attr_s.as_str()).concat(">"),
            (LayoutType::Split, LayoutToken::End) => String::from_str("</div></div>"),
        }
    }
}

impl LayoutState {
    pub fn new() -> (r: LayoutState)
        ensures
            r.stack@.len() == 0,
    {
        LayoutState { stack: Vec::new() }
    }

    /// A marker pushed by a script: `token` of a layout of type `layout`,
    /// at `location`, with `style` (see `spec_pushed_marker`). The open
    /// layouts change as they do for a marker in the text; a marker that
    /// does not fit them is refused and leaves them as they were.
    pub fn push_marker(&mut self, token: LayoutToken, layout: LayoutType, style: String, location: Token) -> (r: Result<Layout, ReportCode>)
        ensures
            match r {
                Ok(l) => spec_pushed_marker(stack_view(old(self).stack@), token, layout, location) == Ok::<(usize, Seq<(Seq<Token>, LayoutType)>), ReportCode>(
                    (l.id, stack_view(final(self).stack@)),
                ) && l.token == token && l.layout == layout && l.location == location && l.style == style,
                Err(c) => spec_pushed_marker(stack_view(old(self).stack@), token, layout, location) == Err::<(usize, Seq<(Seq<Token>, LayoutType)>), ReportCode>(c)
                    && final(self).stack@ == old(self).stack@,
            },
    {
        let ghost st0 = stack_view(self.stack@);
        match token {
            LayoutToken::Begin => {
                let mut tokens: Vec<Token> = Vec::new();
                tokens.push(location);
                self.stack.push((tokens, layout));
                proof {
                    assert(stack_view(self.stack@) =~= st0.push((seq![location], layout)));
                }
                Ok(Layout { location, layout, id: 0, token, style })
            },
            _ => {
                let n = self.stack.len();
                if n == 0 {
                    return Err(ReportCode::NoActiveLayout);
                }
                let current = self.stack[n - 1].1;
                if current != layout {
                    return Err(ReportCode::LayoutMismatch);
                }
                let count = self.stack[n - 1].0.len();
                assert(st0.last().0.len() == count);
                if token == LayoutToken::Next {
                    if layout.expects().1 <= count {
                        return Err(ReportCode::UnexpectedLayoutNext);
                    }
                    let (mut tokens, t) = self.stack.pop().unwrap();
                    tokens.push(location);
                    self.stack.push((tokens, t));
                    proof {
                        assert(stack_view(self.stack@) =~= st0.update(st0.len() - 1, (st0.last().0.push(location), layout)));
                    }
                    Ok(Layout { location, layout, id: count, token, style })
                } else {
                    if layout.expects().0 > count {
                        return Err(ReportCode::UnexpectedLayoutEnd);
                    }
                    let _ = self.stack.pop();
                    proof {
                        assert(stack_view(self.stack@) =~= st0.drop_last());
                    }
                    Ok(Layout { location, layout, id: count, token, style })
                }
            },
        }
    }

    /// The layouts still open at the end of the document, each reported at
    /// its first marker.
    pub fn unterminated(&self) -> (r: Vec<Report>)
        requires
            forall|i: int| 0 <= i < self.stack@.len() ==> #[trigger] self.stack@[i].0@.len() > 0,
        ensures
            r@.len() == self.stack@.len(),
            forall|i: int| 0 <= i < r@.len() ==> #[trigger] r@[i] == (Report {
                kind: ReportKind::Error,
                code: ReportCode::UnterminatedLayout,
                span: self.stack@[i].0@[0],
            }),
    {
        let mut r: Vec<Report> = Vec::new();
        let mut i: usize = 0;
        while i < self.stack.len()
            invariant
                0 <= i <= self.stack@.len(),
                forall|k: int| 0 <= k < self.stack@.len() ==> #[trigger] self.stack@[k].0@.len() > 0,
                r@.len() == i,
                forall|k: int| 0 <= k < i ==> #[trigger] r@[k] == (Report {
                    kind: ReportKind::Error,
                    code: ReportCode::UnterminatedLayout,
                    span: self.stack@[k].0@[0],
                }),
            decreases self.stack@.len() - i,
        {
            assert(self.stack@[i as int].0@.len() > 0);
            r.push(Report { kind: ReportKind::Error, code: ReportCode::UnterminatedLayout, span: self.stack[i].0[0] });
            i += 1;
        }
        r
    }
}

} // verus!
