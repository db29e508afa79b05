use nml::document::{Element, ReportCode, Token};
use nml::elements::internal_link::{InternalLink, InternalLinkRule, Refname};
use nml::parser::parse_document;
use nml::semantics::Semantics;

#[test]
fn internal_link_match_and_check() {
    let rule = InternalLinkRule::new();
    let s: Vec<char> = "see &{doc#name}[**shown**] here".chars().collect();
    let m = rule.find(&s, 0).unwrap();
    assert_eq!(m.whole.start, 4);
    assert!(m.closed);
    assert!(m.display_closed);
    let mut sems = Semantics::new();
    let (refname, display) = rule.on_match(&s, m, &mut sems).unwrap();
    match refname {
        Refname::External(unit, name) => {
            assert_eq!(unit, "doc");
            assert_eq!(name, "name");
        },
        _ => panic!("expected an external name"),
    }
    let d = display.unwrap();
    assert_eq!(s[d.start..d.end].iter().collect::<String>(), "**shown**");
}

#[test]
fn internal_link_errors() {
    let rule = InternalLinkRule::new();
    let mut sems = Semantics::new();
    let s: Vec<char> = "&{ }".chars().collect();
    let m = rule.link_at(&s, 0).unwrap();
    assert_eq!(rule.on_match(&s, m, &mut sems).err().unwrap().code, ReportCode::EmptyInternalLink);
    let s: Vec<char> = "&{a}[b".chars().collect();
    let m = rule.link_at(&s, 0).unwrap();
    assert_eq!(rule.on_match(&s, m, &mut sems).err().unwrap().code, ReportCode::UnterminatedInternalLinkDisplay);
}

#[test]
fn unclosed_reference_is_reported_by_internal_links() {
    let (st, _) = parse_document("text &{never closed");
    assert_eq!(st.reports[0].code, ReportCode::UnterminatedInternalLink);
    assert!(!st.doc.content.iter().any(|e| matches!(e, Element::InternalLink(_))));
}

#[test]
fn internal_link_html() {
    let link = InternalLink {
        location: Token { start: 0, end: 16 },
        refname: Refname::Internal("target".to_string()),
        display: Vec::new(),
    };
    assert_eq!(link.compile("#sec-target", "shown"), r##"<a href="#sec-target">shown</a>"##);
}
