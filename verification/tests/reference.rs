use nml::document::Element;
use nml::elements::reference::CrossReference;
use nml::parser::parse_document;

fn internal(e: &Element) -> (String, Option<String>) {
    match e {
        Element::InternalReference(r) => (r.refname.clone(), r.caption.clone()),
        _ => panic!("expected an internal reference"),
    }
}

fn external(e: &Element) -> (Option<String>, String, Option<String>) {
    match e {
        Element::ExternalReference(r) => match &r.reference {
            CrossReference::Specific(d, n) => (Some(d.clone()), n.clone(), r.caption.clone()),
            CrossReference::Unspecific(n) => (None, n.clone(), r.caption.clone()),
        },
        _ => panic!("expected an external reference"),
    }
}

const INTERNAL: &str = r#"
#{ref} Referenceable section

&{ref}[caption=Section]
&{ref}[caption=Another]
&{ref2}[caption=Before]

#{ref2} Another section
"#;

const EXTERNAL: &str = r#"
&{DocA#ref}[caption=Section]
&{DocB#ref}
&{#ref}[caption='ref' from any document]
"#;

/// Checks the internal references of `INTERNAL`; gives the number of
/// sections in the document.
fn check_internal() -> usize {
    let (st, _) = parse_document(INTERNAL);
    let doc = &st.doc.content;
    assert!(matches!(doc[0], Element::Section(_)));
    match &doc[1] {
        Element::Paragraph(p) => {
            assert_eq!(internal(&p.content[0]), ("ref".to_string(), Some("Section".to_string())));
            assert_eq!(internal(&p.content[1]), ("ref".to_string(), Some("Another".to_string())));
            assert_eq!(internal(&p.content[2]), ("ref2".to_string(), Some("Before".to_string())));
        },
        _ => panic!("expected a paragraph"),
    }
    assert!(matches!(doc[2], Element::Paragraph(_)));
    assert!(matches!(doc[3], Element::Section(_)));
    doc.iter().filter(|e| matches!(e, Element::Section(_))).count()
}

/// Checks the external references of `EXTERNAL`; gives the number of
/// elements of its paragraph.
fn check_external() -> usize {
    let (st, _) = parse_document(EXTERNAL);
    match &st.doc.content[0] {
        Element::Paragraph(p) => {
            assert_eq!(
                external(&p.content[0]),
                (Some("DocA".to_string()), "ref".to_string(), Some("Section".to_string()))
            );
            assert_eq!(external(&p.content[1]), (Some("DocB".to_string()), "ref".to_string(), None));
            assert_eq!(
                external(&p.content[2]),
                (None, "ref".to_string(), Some("'ref' from any document".to_string()))
            );
            p.content.len()
        },
        _ => panic!("expected a paragraph"),
    }
}

#[test]
fn reference_parse_internal() {
    assert_eq!(check_internal(), 2);
}

#[test]
fn reference_parse_external() {
    assert_eq!(check_external(), 3);
}

#[test]
fn tests_parse_internal() {
    assert_eq!(check_internal(), 2);
}

#[test]
fn tests_parse_external() {
    assert_eq!(check_external(), 3);
}

fn internal_references(doc: &nml::document::Document) -> Vec<&nml::elements::reference::InternalReference> {
    let mut found = Vec::new();
    for e in &doc.content {
        if let Element::Paragraph(p) = e {
            for c in &p.content {
                if let Element::InternalReference(r) = c {
                    found.push(r);
                }
            }
        }
    }
    found
}

#[test]
fn internal_references_resolve_to_sections_and_media() {
    let (st, _) = parse_document(
        "\n#{intro} Introduction\n\nSee &{intro}[caption=here] and &{intro}.\n\n![pic](a.png) A picture\n\nThen &{pic} and &{nothing}.\n",
    );
    let refs = internal_references(&st.doc);
    assert_eq!(refs.len(), 4);
    assert_eq!(
        refs[0].compile(&st.doc, 1).unwrap(),
        r##"<a class="section-reference" href="#Introduction">here</a>"##
    );
    assert_eq!(
        refs[1].compile(&st.doc, 1).unwrap(),
        r##"<a class="section-reference" href="#Introduction">(Introduction)</a>"##
    );
    assert_eq!(refs[2].compile(&st.doc, 1).unwrap(), r#"<a class="medium-ref">(1)<img src="a.png"></a>"#);
    assert_eq!(
        refs[3].compile(&st.doc, 1).unwrap_err(),
        "Unable to find reference `nothing` in current document"
    );
}

#[test]
fn a_later_section_takes_over_a_reference_name() {
    let (st, _) = parse_document("\n#{a} First\n\n#{a} Second\n\nSee &{a}.\n");
    assert_eq!(st.reports.len(), 1);
    assert_eq!(st.reports[0].code, nml::document::ReportCode::DuplicateReferenceName);
    assert_eq!(st.reports[0].kind, nml::document::ReportKind::Warning);
    let refs = internal_references(&st.doc);
    assert_eq!(
        refs[0].compile(&st.doc, 1).unwrap(),
        r##"<a class="section-reference" href="#Second">(Second)</a>"##
    );
}

#[test]
fn external_references_take_the_document_style() {
    let mut parser = nml::parser::Parser::new();
    parser.reference.style = nml::elements::reference::ExternalReferenceStyle {
        format_unspecific: "[UNSPECIFIC {refname}]".to_string(),
        format_specific: "[SPECIFIC {refdoc}:{refname}]".to_string(),
    };
    let s: Vec<char> = "&{#ref}[caption=from 0]\n&{#ref}\n&{b#ref2}".chars().collect();
    let st = parser.parse(&s, nml::parser::ParseMode { paragraph_only: false });
    let html: Vec<String> = st
        .doc
        .content
        .iter()
        .flat_map(|e| match e {
            Element::Paragraph(p) => p.content.iter().collect::<Vec<_>>(),
            other => vec![other],
        })
        .filter_map(|e| match e {
            Element::ExternalReference(r) => Some(r.compile().unwrap()),
            _ => None,
        })
        .collect();
    assert_eq!(html.len(), 3);
    assert!(html[0].contains(">from 0</a>"));
    assert!(html[1].contains(">[UNSPECIFIC ref]</a>"));
    assert!(html[2].contains(">[SPECIFIC b:ref2]</a>"));
}

#[test]
fn formats_keep_their_keys_and_escape_their_text() {
    let f: Vec<char> = "a<{b<}>\"".chars().collect();
    let out: String = nml::compile::sanitize_format(&f).into_iter().collect();
    assert_eq!(out, "a&lt;{b<}&gt;&quot;");
    let mut parser = nml::parser::Parser::new();
    parser.reference.style = nml::elements::reference::ExternalReferenceStyle {
        format_unspecific: "<{refname}>".to_string(),
        format_specific: "{refdoc}:{refname}".to_string(),
    };
    let s: Vec<char> = "&{#ref}".chars().collect();
    let st = parser.parse(&s, nml::parser::ParseMode { paragraph_only: false });
    let html: Vec<String> = st
        .doc
        .content
        .iter()
        .flat_map(|e| match e {
            Element::Paragraph(p) => p.content.iter().collect::<Vec<_>>(),
            other => vec![other],
        })
        .filter_map(|e| match e {
            Element::ExternalReference(r) => Some(r.compile().unwrap()),
            _ => None,
        })
        .collect();
    assert_eq!(html, vec!["<a href=\"\">&lt;ref&gt;</a>".to_string()]);
}

fn unspecific_with_format(format: &str) -> nml::elements::reference::ExternalReference {
    nml::elements::reference::ExternalReference {
        location: nml::document::Token { start: 0, end: 0 },
        reference: CrossReference::Unspecific("ref".to_string()),
        caption: None,
        style: nml::elements::reference::ExternalReferenceStyle {
            format_unspecific: format.to_string(),
            format_specific: String::new(),
        },
    }
}

#[test]
fn format_strings_escape_braces_and_refuse_unknown_keys() {
    assert_eq!(unspecific_with_format("{{x}{refname}").compile().unwrap(), "<a href=\"\">{x}ref</a>");
    assert_eq!(unspecific_with_format("({refname}").compile().unwrap(), "<a href=\"\">(ref</a>");
    assert_eq!(unspecific_with_format("abc{").compile().unwrap(), "<a href=\"\">abc</a>");
    assert!(unspecific_with_format("{refdoc}").compile().is_err());
    assert!(unspecific_with_format("x{refname").compile().is_err());
}
