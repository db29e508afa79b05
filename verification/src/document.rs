//! The document: the elements produced by the rules, how they are grouped
//! into paragraphs, and the diagnostics the rules report.
use vstd::prelude::*;

use crate::elements::internal_link::InternalLink;
use crate::elements::latex::{Latex, TexKind};
use crate::elements::lua::LuaPostProcess;
use crate::elements::layout::Layout;
use crate::elements::linebreak::LineBreak;
use crate::elements::link::Link;
use crate::elements::list::{ListEntry, ListMarker};
use crate::elements::media::{MediaGroup, Medium};
use crate::interop::str_to_chars;
use crate::text::chars_eq;
use crate::elements::meta::Eof;
use crate::elements::paragraph::Paragraph;
use crate::elements::raw::Raw;
use crate::elements::reference::{ExternalReference, InternalReference};
use crate::elements::script::Script;
use crate::elements::section::Section;
use crate::elements::style::Style;
use crate::elements::text::Text;

verus! {

/// How an element is laid out.
#[derive(Clone, Copy, PartialEq, Eq, Debug, Structural)]
pub enum ElemKind {
    /// Takes no room: kept inside paragraphs.
    Invisible,
    /// Paragraph separators.
    Special,
    /// Part of a paragraph.
    Inline,
    /// Stands on its own, outside paragraphs.
    Block,
}

/// A range of characters of the source.
#[derive(Clone, Copy, PartialEq, Eq, Debug, Structural)]
pub struct Token {
    pub start: usize,
    pub end: usize,
}

/// The elements of a document.
pub enum Element {
    Paragraph(Paragraph),
    Text(Text),
    Style(Style),
    Section(Section),
    Raw(Raw),
    InternalReference(InternalReference),
    ExternalReference(ExternalReference),
    Link(Link),
    ListMarker(ListMarker),
    ListEntry(ListEntry),
    Layout(Layout),
    Media(MediaGroup),
    Script(Script),
    Latex(Latex),
    LineBreak(LineBreak),
    Eof(Eof),
    InternalLink(InternalLink),
    LuaPostProcess(LuaPostProcess),
}

/// Layout kind of each element.
pub open spec fn spec_kind(e: Element) -> ElemKind {
    match e {
        Element::Paragraph(_) => ElemKind::Special,
        Element::Text(_) => ElemKind::Inline,
        Element::Style(_) => ElemKind::Inline,
        Element::Section(_) => ElemKind::Block,
        Element::Raw(r) => r.kind,
        Element::InternalReference(_) => ElemKind::Inline,
        Element::ExternalReference(_) => ElemKind::Inline,
        Element::Link(_) => ElemKind::Inline,
        Element::ListMarker(_) => ElemKind::Block,
        Element::ListEntry(_) => ElemKind::Block,
        Element::Layout(_) => ElemKind::Block,
        Element::Media(_) => ElemKind::Block,
        Element::Script(_) => ElemKind::Invisible,
        Element::Latex(l) => match l.kind {
            TexKind::Block => ElemKind::Block,
            TexKind::Inline => ElemKind::Inline,
        },
        Element::LineBreak(_) => ElemKind::Invisible,
        Element::Eof(_) => ElemKind::Invisible,
        Element::InternalLink(_) => ElemKind::Inline,
        Element::LuaPostProcess(_) => ElemKind::Invisible,
    }
}

/// Source range of each element.
pub open spec fn spec_location(e: Element) -> Token {
    match e {
        Element::Paragraph(x) => x.location,
        Element::Text(x) => x.location,
        Element::Style(x) => x.location,
        Element::Section(x) => x.location,
        Element::Raw(x) => x.location,
        Element::InternalReference(x) => x.location,
        Element::ExternalReference(x) => x.location,
        Element::Link(x) => x.location,
        Element::ListMarker(x) => x.location,
        Element::ListEntry(x) => x.location,
        Element::Layout(x) => x.location,
        Element::Media(x) => x.location,
        Element::Script(x) => x.location,
        Element::Latex(x) => x.location,
        Element::LineBreak(x) => x.location,
        Element::Eof(x) => x.location,
        Element::InternalLink(x) => x.location,
        Element::LuaPostProcess(x) => x.location,
    }
}

impl Element {
    pub fn kind(&self) -> (r: ElemKind)
        ensures
            r == spec_kind(*self),
    {
        match self {
            Element::Paragraph(_) => ElemKind::Special,
            Element::Text(_) => ElemKind::Inline,
            Element::Style(_) => ElemKind::Inline,
            Element::Section(_) => ElemKind::Block,
            Element::Raw(r) => r.kind,
            Element::InternalReference(_) => ElemKind::Inline,
            Element::ExternalReference(_) => ElemKind::Inline,
            Element::Link(_) => ElemKind::Inline,
            Element::ListMarker(_) => ElemKind::Block,
            Element::ListEntry(_) => ElemKind::Block,
            Element::Layout(_) => ElemKind::Block,
            Element::Media(_) => ElemKind::Block,
            Element::Script(_) => ElemKind::Invisible,
            Element::Latex(l) => l.kind.elem_kind(),
            Element::LineBreak(_) => ElemKind::Invisible,
            Element::Eof(_) => ElemKind::Invisible,
            Element::InternalLink(_) => ElemKind::Inline,
            Element::LuaPostProcess(_) => ElemKind::Invisible,
        }
    }

    pub fn location(&self) -> (r: Token)
        ensures
            r == spec_location(*self),
    {
        match self {
            Element::Paragraph(x) => x.location,
            Element::Text(x) => x.location,
            Element::Style(x) => x.location,
            Element::Section(x) => x.location,
            Element::Raw(x) => x.location,
            Element::InternalReference(x) => x.location,
            Element::ExternalReference(x) => x.location,
            Element::Link(x) => x.location,
            Element::ListMarker(x) => x.location,
            Element::ListEntry(x) => x.location,
            Element::Layout(x) => x.location,
            Element::Media(x) => x.location,
            Element::Script(x) => x.location,
            Element::Latex(x) => x.location,
            Element::LineBreak(x) => x.location,
            Element::Eof(x) => x.location,
            Element::InternalLink(x) => x.location,
            Element::LuaPostProcess(x) => x.location,
        }
    }

    /// Name of the element's kind.
    pub fn element_name(&self) -> (r: &'static str)
        ensures
            r@ == spec_element_name(*self),
    {
        match self {
            Element::Paragraph(_) => "Paragraph",
            Element::Text(_) => "Text",
            Element::Style(_) => "Style",
            Element::Section(_) => "Section",
            Element::Raw(_) => "Raw",
            Element::InternalReference(_) => "Reference",
            Element::ExternalReference(_) => "Reference",
            Element::Link(_) => "Link",
            Element::ListMarker(_) => "List Marker",
            Element::ListEntry(_) => "List Entry",
            Element::Layout(_) => "Layout",
            Element::Media(_) => "Media",
            Element::Script(_) => "Script",
            Element::Latex(_) => "Latex",
            Element::LineBreak(_) => "Break",
            Element::Eof(_) => "Enf of File",
            Element::InternalLink(_) => "Internal Link",
            Element::LuaPostProcess(_) => "Lua Post-Process",
        }
    }
}

/// Name of the kind of element `e`.
pub open spec fn spec_element_name(e: Element) -> Seq<char> {
    match e {
        Element::Paragraph(_) => "Paragraph"@,
        Element::Text(_) => "Text"@,
        Element::Style(_) => "Style"@,
        Element::Section(_) => "Section"@,
        Element::Raw(_) => "Raw"@,
        Element::InternalReference(_) => "Reference"@,
        Element::ExternalReference(_) => "Reference"@,
        Element::Link(_) => "Link"@,
        Element::ListMarker(_) => "List Marker"@,
        Element::ListEntry(_) => "List Entry"@,
        Element::Layout(_) => "Layout"@,
        Element::Media(_) => "Media"@,
        Element::Script(_) => "Script"@,
        Element::Latex(_) => "Latex"@,
        Element::LineBreak(_) => "Break"@,
        Element::Eof(_) => "Enf of File"@,
        Element::InternalLink(_) => "Internal Link"@,
        Element::LuaPostProcess(_) => "Lua Post-Process"@,
    }
}

/// Whether an element may stand inside a paragraph.
pub open spec fn spec_fits_paragraph(e: Element) -> bool {
    spec_kind(e) == ElemKind::Inline || spec_kind(e) == ElemKind::Invisible
}

/// The document: the top-level elements, in order. Inline and invisible
/// elements stand inside paragraphs.
pub struct Document {
    pub content: Vec<Element>,
}

/// No top-level inline or invisible element, and paragraphs hold no block.
pub open spec fn doc_wf(content: Seq<Element>) -> bool {
    forall|i: int| 0 <= i < content.len() ==> {
        &&& !spec_fits_paragraph(#[trigger] content[i])
        &&& (content[i] matches Element::Paragraph(p) ==> forall|j: int|
            0 <= j < p.content@.len() ==> spec_kind(#[trigger] p.content@[j]) != ElemKind::Block)
    }
}

/// The elements in the order they were added: paragraphs give way to the
/// elements they hold.
pub open spec fn spec_flatten(content: Seq<Element>) -> Seq<Element>
    decreases content.len(),
{
    if content.len() == 0 {
        Seq::empty()
    } else {
        let last = content.last();
        let rest = spec_flatten(content.drop_last());
        match last {
            Element::Paragraph(p) => rest + p.content@,
            _ => rest.push(last),
        }
    }
}

pub proof fn lemma_flatten_push(c: Seq<Element>, e: Element)
    ensures
        spec_flatten(seq![e]) == (match e {
            Element::Paragraph(p) => p.content@,
            _ => seq![e],
        }),
        spec_flatten(c.push(e)) == spec_flatten(c) + spec_flatten(seq![e]),
{
    assert(seq![e].drop_last() =~= Seq::<Element>::empty());
    assert(spec_flatten(Seq::<Element>::empty()) == Seq::<Element>::empty());
    assert(c.push(e).drop_last() =~= c);
    match e {
        Element::Paragraph(p) => {
            assert(Seq::<Element>::empty() + p.content@ =~= p.content@);
        },
        _ => {
            assert(Seq::<Element>::empty().push(e) =~= seq![e]);
            assert(spec_flatten(c).push(e) =~= spec_flatten(c) + seq![e]);
        },
    }
}

/// The elements that adding `e` contributes to the flattened document.
pub proof fn lemma_flatten_one(e: Element)
    ensures
        spec_flatten(seq![e]) == (match e {
            Element::Paragraph(p) => p.content@,
            _ => seq![e],
        }),
{
    lemma_flatten_push(Seq::empty(), e);
}

/// Whether the medium at `k` in `media` is the last one named `name`.
pub open spec fn spec_last_medium(media: Seq<Medium>, name: Seq<char>, k: int) -> bool {
    &&& 0 <= k < media.len()
    &&& media[k].reference@ == name
    &&& forall|l: int| k < l < media.len() ==> (#[trigger] media[l]).reference@ != name
}

/// Whether element `e` defines the reference `name`: a section of that
/// reference name, or a group of media one of which has that name.
pub open spec fn spec_defines_reference(e: Element, name: Seq<char>) -> bool {
    match e {
        Element::Section(s) => s.reference matches Some(r) && r@ == name,
        Element::Media(g) => exists|k: int| spec_last_medium(g.media@, name, k),
        _ => false,
    }
}

/// Whether the element at `i` of `content` is the last that defines `name`:
/// a later definition of a name replaces an earlier one.
pub open spec fn spec_last_definition(content: Seq<Element>, name: Seq<char>, i: int) -> bool {
    &&& 0 <= i < content.len()
    &&& spec_defines_reference(content[i], name)
    &&& forall|j: int| i < j < content.len() ==> !spec_defines_reference(#[trigger] content[j], name)
}

/// The last medium of `media` named `name`.
pub fn last_medium(media: &Vec<Medium>, name: &[char]) -> (r: Option<usize>)
    ensures
        match r {
            Some(k) => spec_last_medium(media@, name@, k as int),
            None => forall|k: int| 0 <= k < media@.len() ==> (#[trigger] media@[k]).reference@ != name@,
        },
{
    let mut k = media.len();
    while k > 0
        invariant
            k <= media@.len(),
            forall|l: int| k <= l < media@.len() ==> (#[trigger] media@[l]).reference@ != name@,
        decreases k,
    {
        let r = str_to_chars(media[k - 1].reference.as_str());
        if chars_eq(r.as_slice(), name) {
            return Some(k - 1);
        }
        k -= 1;
    }
    None
}

/// Whether `e` defines the reference `name` (see `spec_defines_reference`).
pub fn defines_reference(e: &Element, name: &[char]) -> (r: bool)
    ensures
        r == spec_defines_reference(*e, name@),
{
    match e {
        Element::Section(s) => match &s.reference {
            Some(r) => chars_eq(str_to_chars(r.as_str()).as_slice(), name),
            None => false,
        },
        Element::Media(g) => {
            let found = last_medium(&g.media, name);
            proof {
                if found is None {
                    assert forall|k: int| !spec_last_medium(g.media@, name@, k) by {
                        if 0 <= k < g.media@.len() {
                            assert(g.media@[k].reference@ != name@);
                        }
                    }
                }
            }
            match found {
                Some(_) => true,
                None => false,
            }
        },
        _ => false,
    }
}

/// Whether `elem` may be added to a document: a paragraph holds no block.
pub open spec fn spec_pushable(elem: Element) -> bool {
    elem matches Element::Paragraph(p) ==> forall|j: int|
        0 <= j < p.content@.len() ==> spec_kind(#[trigger] p.content@[j]) != ElemKind::Block
}

impl Document {
    /// The element that defines the reference `name`: the last one that
    /// does.
    pub fn find_reference(&self, name: &[char]) -> (r: Option<usize>)
        ensures
            match r {
                Some(i) => spec_last_definition(self.content@, name@, i as int),
                None => forall|j: int| 0 <= j < self.content@.len()
                    ==> !spec_defines_reference(#[trigger] self.content@[j], name@),
            },
    {
        let mut i = self.content.len();
        while i > 0
            invariant
                i <= self.content@.len(),
                forall|j: int| i <= j < self.content@.len() ==> !spec_defines_reference(#[trigger] self.content@[j], name@),
            decreases i,
        {
            if defines_reference(&self.content[i - 1], name) {
                return Some(i - 1);
            }
            i -= 1;
        }
        None
    }

    pub fn new() -> (r: Document)
        ensures
            r.content@.len() == 0,
    {
        Document { content: Vec::new() }
    }

    /// Adds `elem` at the end of the document. An inline or invisible
    /// element goes into the last paragraph, which is opened (at the
    /// element's location) when the document does not end with one; any other
    /// element is added at the top level.
    pub fn push(&mut self, elem: Element)
        requires
            doc_wf(old(self).content@),
            spec_pushable(elem),
        ensures
            doc_wf(final(self).content@),
            spec_flatten(final(self).content@) == spec_flatten(old(self).content@) + spec_flatten(seq![elem]),
            !spec_fits_paragraph(elem) ==> final(self).content@ == old(self).content@.push(elem),
            spec_fits_paragraph(elem) && old(self).content@.len() > 0
                && old(self).content@.last() is Paragraph ==> final(self).content@.len() == old(self).content@.len(),
            spec_fits_paragraph(elem) && !(old(self).content@.len() > 0 && old(self).content@.last() is Paragraph)
                ==> final(self).content@.len() == old(self).content@.len() + 1
                && (final(self).content@.last() matches Element::Paragraph(p)
                && p.location == spec_location(elem) && p.content@ == seq![elem]),
    {
        let ghost old_content = self.content@;
        proof {
            lemma_flatten_push(old_content, elem);
        }
        let k = elem.kind();
        if k == ElemKind::Block || k == ElemKind::Special {
            self.content.push(elem);
            proof {
                assert(self.content@.drop_last() =~= old_content);
            }
            return;
        }
        match self.content.pop() {
            Some(Element::Paragraph(mut p)) => {
                let ghost before = p.content@;
                let _ = p.push(elem);
                self.content.push(Element::Paragraph(p));
                proof {
                    assert(self.content@.drop_last() =~= old_content.drop_last());
                    assert(p.content@ == before.push(elem));
                    assert(before + seq![elem] =~= before.push(elem));
                    assert(spec_flatten(old_content.drop_last()) + before.push(elem) =~= spec_flatten(
                        old_content.drop_last(),
                    ) + before + seq![elem]);
                }
            },
            other => {
                match other {
                    Some(e) => self.content.push(e),
                    None => {},
                }
                proof {
                    assert(self.content@ =~= old_content);
                }
                let loc = elem.location();
                let mut inner: Vec<Element> = Vec::new();
                inner.push(elem);
                self.content.push(Element::Paragraph(Paragraph { location: loc, content: inner }));
                proof {
                    assert(self.content@.drop_last() =~= old_content);
                    assert(Seq::<Element>::empty() + seq![elem] =~= seq![elem]);
                }
            },
        }
    }
}

/// Whether a report is an error or a warning.
#[derive(Clone, Copy, PartialEq, Eq, Debug, Structural)]
pub enum ReportKind {
    Error,
    Warning,
}

/// Whether a report of code `code` is an error or a warning: a missing
/// space before a section's name, empty raw code or kernel code, and a
/// reference name defined again are warnings, as is a list entry that is
/// not one paragraph; the rest are errors.
pub open spec fn spec_report_kind(code: ReportCode) -> ReportKind {
    match code {
        ReportCode::MissingSectionSpacing | ReportCode::EmptyRaw | ReportCode::EmptyKernelCode
        | ReportCode::DuplicateReferenceName | ReportCode::InvalidListEntry => ReportKind::Warning,
        _ => ReportKind::Error,
    }
}

/// What a report says.
#[derive(Clone, Copy, PartialEq, Eq, Debug, Structural)]
pub enum ReportCode {
    UnterminatedStyle,
    InvalidSectionDepth,
    DuplicateReferenceName,
    InvalidSectionKind,
    MissingSectionName,
    MissingSectionSpacing,
    UnterminatedRaw,
    EmptyRaw,
    InvalidRawProperties,
    InvalidRawKind,
    RawExpectsContent,
    InvalidReferenceRefname,
    InvalidReferenceProperties,
    EmptyLinkName,
    EmptyLinkUrl,
    InvalidLinkDisplay,
    InvalidListProperties,
    InvalidListOffset,
    InvalidListEntry,
    MissingLayoutName,
    EmptyLayoutName,
    InvalidLayoutName,
    UnknownLayout,
    InvalidLayoutProperties,
    NoActiveLayout,
    UnexpectedLayoutNext,
    UnexpectedLayoutEnd,
    UnterminatedLayout,
    LayoutMismatch,
    InvalidMediaRefname,
    InvalidMediaUri,
    InvalidMediaProperties,
    InvalidMediaType,
    MissingMediaType,
    InvalidMediaDescription,
    InvalidKernelName,
    InvalidKernelKind,
    EmptyKernelCode,
    UnterminatedTex,
    EmptyTex,
    InvalidTexProperties,
    InvalidTexKind,
    UnterminatedInternalLink,
    UnterminatedInlineLua,
    InvalidLuaProperties,
    UnterminatedLua,
    EmptyInternalLink,
    InvalidInternalLink,
    UnterminatedInternalLinkDisplay,
    InvalidInternalLinkDisplay,
}

/// A diagnostic over a range of the source.
#[derive(Clone, Copy, PartialEq, Eq, Debug, Structural)]
pub struct Report {
    pub kind: ReportKind,
    pub code: ReportCode,
    pub span: Token,
}

} // verus!
