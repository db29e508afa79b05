//! What scripts change in a parse through the `nml` bindings they call:
//! each call is applied to the parse state where the script stands.
use vstd::prelude::*;

use crate::document::{spec_flatten, Element, Report, ReportCode, ReportKind, Token};
use crate::elements::layout::{
    spec_find_layout, spec_layout_props_message, spec_layout_style, spec_layout_token_from, spec_pushed_marker,
    stack_view, LayoutRule, LayoutToken, LayoutType,
};
use crate::elements::link::Link;
use crate::elements::raw::{elem_kind_from, spec_elem_kind_from, Raw};
use crate::elements::section::{section_kind_from, spec_section_kind, Section};
use crate::elements::style::{spec_style_from_name, style_from_name, Style};
use crate::interop::str_to_chars;
use crate::parser::{
    layouts_wf, para_mode, spec_closing_reports, spec_gains, spec_last_elem, spec_parses_base, spec_redefines, spec_single_paragraph,
    ParagraphError, ParseState, Parser,
};

verus! {

/// A call of one of the `nml` bindings by a script.
pub enum BindingCall {
    /// `nml.style.toggle(name)`.
    ToggleStyle(String),
    /// `nml.raw.push(kind, content)`.
    PushRaw(String, String),
    /// `nml.section.push(title, depth, kind, reference)`.
    PushSection(String, usize, Option<String>, Option<String>),
    /// `nml.link.push(display, url)`.
    PushLink(String, String),
    /// `nml.layout.push(token, layout, properties)`.
    PushLayout(String, String, String),
}

/// Why a binding call is refused.
pub enum BindingError {
    UnknownStyle,
    UnknownElemKind,
    UnknownSectionKind,
    /// The display of a link is not the content of one paragraph.
    InvalidLinkDisplay,
    UnknownLayoutToken,
    UnknownLayout,
    /// The layout refuses the properties, saying why.
    InvalidLayoutProperties(String),
    /// The open layouts refuse the marker.
    Layout(ReportCode),
}

/// The text of an optional argument: none is the empty text.
pub open spec fn opt_text(o: Option<String>) -> Seq<char> {
    match o {
        Some(x) => x@,
        None => Seq::empty(),
    }
}

/// The range that a properties argument `p` is read over.
pub open spec fn whole_range(p: Seq<char>) -> Option<Token> {
    Some(Token { start: 0, end: p.len() as usize })
}

/// What the call `call`, made by a script at `location`, does to the
/// parse state `old`, giving `new` and the outcome `r`. A refused call
/// changes nothing.
pub open spec fn spec_binding_effect(
    call: BindingCall,
    location: Token,
    old: ParseState,
    new: ParseState,
    r: Result<(), BindingError>,
) -> bool {
    &&& r is Err ==> {
        &&& new.doc.content@ == old.doc.content@
        &&& new.reports@ == old.reports@
        &&& new.sems.tokens@ == old.sems.tokens@
        &&& new.styles.toggled@ == old.styles.toggled@
        &&& new.layouts.stack@ == old.layouts.stack@
    }
    &&& match call {
        BindingCall::ToggleStyle(name) => match spec_style_from_name(name@) {
            None => r == Err::<(), BindingError>(BindingError::UnknownStyle),
            Some(k) => r is Ok && new.styles.toggled@ == old.styles.toggled@.update(
                k as int,
                if old.styles.toggled@[k as int] is Some { None } else { Some(location) },
            ) && spec_gains(old, new, Element::Style(Style { location, kind: k, close: old.styles.toggled@[k as int] is Some })),
        },
        BindingCall::PushRaw(kind, content) => match spec_elem_kind_from(kind@) {
            None => r == Err::<(), BindingError>(BindingError::UnknownElemKind),
            Some(k) => r is Ok && spec_gains(old, new, Element::Raw(Raw { location, kind: k, content })),
        },
        BindingCall::PushSection(title, depth, kind, reference) => match spec_section_kind(opt_text(kind)) {
            None => r == Err::<(), BindingError>(BindingError::UnknownSectionKind),
            Some(v) => {
                let sec = Section { location, title, depth, kind: v, reference };
                &&& r is Ok
                &&& spec_flatten(new.doc.content@) == spec_flatten(old.doc.content@).push(Element::Section(sec))
                &&& new.reports@ == old.reports@ + (if spec_redefines(old.doc.content@, sec.reference) {
                    seq![Report { kind: ReportKind::Warning, code: ReportCode::DuplicateReferenceName, span: location }]
                } else {
                    Seq::<Report>::empty()
                }) + spec_closing_reports(old.doc.content@, old.styles, Element::Section(sec))
            },
        },
        BindingCall::PushLink(display, url) => exists|sub: ParseState| #[trigger] spec_parses_base(display@, para_mode(), sub)
            && match spec_single_paragraph(sub.doc.content@) {
                Ok(c) => r is Ok && spec_gains(old, new, spec_last_elem(new))
                    && (spec_last_elem(new) matches Element::Link(l) && l.location == location && l.url@ == url@
                    && l.display@ == c),
                Err(_) => r == Err::<(), BindingError>(BindingError::InvalidLinkDisplay),
            },
        BindingCall::PushLayout(token, name, props) => match spec_layout_token_from(token@) {
            None => r == Err::<(), BindingError>(BindingError::UnknownLayoutToken),
            Some(tk) => match spec_find_layout(name@) {
                None => r == Err::<(), BindingError>(BindingError::UnknownLayout),
                Some(t) => match spec_layout_style(props@, whole_range(props@)) {
                    None => r matches Err(BindingError::InvalidLayoutProperties(m))
                        && spec_layout_props_message(props@, whole_range(props@), t) == Some(m@),
                    Some(style) => match spec_pushed_marker(stack_view(old.layouts.stack@), tk, t, location) {
                        Err(c) => r == Err::<(), BindingError>(BindingError::Layout(c)),
                        Ok((id, stack)) => r is Ok && stack_view(new.layouts.stack@) == stack
                            && spec_gains(old, new, spec_last_elem(new))
                            && (spec_last_elem(new) matches Element::Layout(l) && l.location == location
                            && l.layout == t && l.id == id && l.token == tk && l.style@ == style),
                    },
                },
            },
        },
    }
}

proof fn lemma_pushed_marker_wf(st: Seq<(Seq<Token>, LayoutType)>, tk: LayoutToken, t: LayoutType, location: Token)
    requires
        layouts_wf(st),
        spec_pushed_marker(st, tk, t, location) is Ok,
    ensures
        layouts_wf(spec_pushed_marker(st, tk, t, location)->Ok_0.1),
{
    let r = spec_pushed_marker(st, tk, t, location)->Ok_0.1;
    assert forall|i: int| 0 <= i < r.len() implies (#[trigger] r[i]).0.len() > 0 by {
        if i < st.len() && !(tk != LayoutToken::Begin && i == st.len() - 1) {
            assert(r[i] == st[i]);
        }
    }
}

impl Parser {
    /// Applies the call `call` of a script at `location` to the parse
    /// state (see `spec_binding_effect`).
    pub fn apply_binding(&self, st: &mut ParseState, call: BindingCall, location: Token) -> (r: Result<(), BindingError>)
        requires
            self.wf(),
            old(st).wf(),
        ensures
            final(st).wf(),
            spec_binding_effect(call, location, *old(st), *final(st), r),
    {
        match call {
            BindingCall::ToggleStyle(name) => {
                let chars = str_to_chars(name.as_str());
                match style_from_name(chars.as_slice()) {
                    None => Err(BindingError::UnknownStyle),
                    Some(k) => {
                        let close = st.styles.toggle(k, location);
                        st.push(Element::Style(Style { location, kind: k, close }));
                        Ok(())
                    },
                }
            },
            BindingCall::PushRaw(kind, content) => {
                let chars = str_to_chars(kind.as_str());
                match elem_kind_from(chars.as_slice()) {
                    None => Err(BindingError::UnknownElemKind),
                    Some(k) => {
                        st.push(Element::Raw(Raw { location, kind: k, content }));
                        Ok(())
                    },
                }
            },
            BindingCall::PushSection(title, depth, kind, reference) => {
                let chars = match &kind {
                    Some(x) => str_to_chars(x.as_str()),
                    None => Vec::new(),
                };
                match section_kind_from(chars.as_slice()) {
                    None => Err(BindingError::UnknownSectionKind),
                    Some(v) => {
                        st.push_section(Section { location, title, depth, kind: v, reference }, location);
                        Ok(())
                    },
                }
            },
            BindingCall::PushLink(display, url) => {
                let chars = str_to_chars(display.as_str());
                let (content, _, _) = self.parse_paragraph(chars.as_slice());
                let ghost sub = choose|x: ParseState| #[trigger] spec_parses_base(chars@, para_mode(), x) && match content {
                    Ok(v) => spec_single_paragraph(x.doc.content@) == Ok::<Seq<Element>, ParagraphError>(v@),
                    Err(e) => spec_single_paragraph(x.doc.content@) == Err::<Seq<Element>, ParagraphError>(e),
                };
                proof { assert(spec_parses_base(display@, para_mode(), sub)); }
                match content {
                    Err(_) => Err(BindingError::InvalidLinkDisplay),
                    Ok(elems) => {
                        let l = Link { location, display: elems, url };
                        let ghost e = Element::Link(l);
                        st.push(Element::Link(l));
                        proof { crate::document::lemma_flatten_one(e); }
                        Ok(())
                    },
                }
            },
            BindingCall::PushLayout(token, name, props) => {
                let tchars = str_to_chars(token.as_str());
                let tk = match LayoutToken::from_str(tchars.as_slice()) {
                    None => { return Err(BindingError::UnknownLayoutToken); },
                    Some(tk) => tk,
                };
                let nchars = str_to_chars(name.as_str());
                let t = match LayoutRule::find_layout(nchars.as_slice()) {
                    None => { return Err(BindingError::UnknownLayout); },
                    Some(t) => t,
                };
                let pchars = str_to_chars(props.as_str());
                let range = Some(Token { start: 0, end: pchars.len() });
                let style = match self.layout.parse_properties(pchars.as_slice(), range) {
                    None => {
                        let m = match self.layout.properties_message(pchars.as_slice(), range, t) {
                            Some(m) => m,
                            None => { proof { assert(false); } String::new() },
                        };
                        return Err(BindingError::InvalidLayoutProperties(m));
                    },
                    Some(style) => style,
                };
                let ghost before = stack_view(st.layouts.stack@);
                match st.layouts.push_marker(tk, t, style, location) {
                    Err(c) => Err(BindingError::Layout(c)),
                    Ok(l) => {
                        proof { lemma_pushed_marker_wf(before, tk, t, location); }
                        let ghost e = Element::Layout(l);
                        st.push(Element::Layout(l));
                        proof { crate::document::lemma_flatten_one(e); }
                        Ok(())
                    },
                }
            },
        }
    }
}

} // verus!
