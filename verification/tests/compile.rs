use nml::document::Token;
use nml::elements::list::ListEntry;
use nml::elements::reference::{CrossReference, ExternalReference, ExternalReferenceStyle};
use nml::elements::section::{Section, SectionLinkPos, SectionStyle, NONE, NO_NUMBER};
use nml::elements::text::Text;

fn loc() -> Token {
    Token { start: 0, end: 0 }
}

#[test]
fn text_is_sanitized() {
    let t = Text::new(loc(), "a < b & \"c\"".to_string());
    assert_eq!(t.compile(), "a &lt; b &amp; &quot;c&quot;");
}

#[test]
fn section_heading_html() {
    let s = Section { location: loc(), title: "My title".to_string(), depth: 2, kind: NONE, reference: None };
    let style = SectionStyle::default();
    assert_eq!(
        s.compile(&vec![1, 12], &style),
        "<h2 id=\"My_title\"><a class=\"section-link\" href=\"#My_title\">🔗</a> 1.12. My title</h2>"
    );
    let hidden = SectionStyle { link_pos: SectionLinkPos::Hidden, link: vec![] };
    let unnumbered = Section { kind: NO_NUMBER, ..s };
    assert_eq!(unnumbered.compile(&vec![3], &hidden), "<h2 id=\"My_title\">My title</h2>");
    assert_eq!(
        unnumbered.compile_reference(None),
        "<a class=\"section-reference\" href=\"#My_title\">(My title)</a>"
    );
}

#[test]
fn external_reference_uses_style_format() {
    let r = ExternalReference {
        location: loc(),
        reference: CrossReference::Specific("Doc<A>".to_string(), "ref".to_string()),
        caption: None,
        style: ExternalReferenceStyle::default(),
    };
    assert_eq!(r.compile().unwrap(), "<a href=\"\">(Doc&lt;A&gt;#ref)</a>");
    let u = ExternalReference {
        location: loc(),
        reference: CrossReference::Unspecific("ref".to_string()),
        caption: None,
        style: ExternalReferenceStyle::default(),
    };
    assert_eq!(u.compile().unwrap(), "<a href=\"\">(#ref)</a>");
    let bad = ExternalReference {
        location: loc(),
        reference: CrossReference::Unspecific("ref".to_string()),
        caption: None,
        style: ExternalReferenceStyle { format_unspecific: "{refdoc}".to_string(), format_specific: String::new() },
    };
    assert!(bad.compile().is_err());
    let captioned = ExternalReference { caption: Some("see".to_string()), ..u };
    assert_eq!(captioned.compile().unwrap(), "<a href=\"\">see</a>");
}

#[test]
fn list_entry_html() {
    let e = ListEntry { location: loc(), numbering: vec![(false, 1), (true, 4)], content: vec![], bullet: None };
    assert_eq!(e.compile("x"), "<li value=\"4\">x</li>");
    let u = ListEntry { location: loc(), numbering: vec![(false, 2)], content: vec![], bullet: None };
    assert_eq!(u.compile("y"), "<li>y</li>");
}
