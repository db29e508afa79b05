use nml::document::Element;
use nml::parser::parse_document;

fn text_of(e: &Element) -> String {
    match e {
        Element::Text(t) => t.content.clone(),
        _ => panic!("expected a text element"),
    }
}

fn paragraph_texts(e: &Element) -> Vec<String> {
    match e {
        Element::Paragraph(p) => p.content.iter().map(text_of).collect(),
        _ => panic!("expected a paragraph"),
    }
}

#[test]
fn paragraph_parse() {
    let (st, _) = parse_document(
        r#"
First paragraph
Second line

Second paragraph\
<- literal \\n


Last paragraph
			"#,
    );
    let doc = &st.doc.content;
    assert_eq!(paragraph_texts(&doc[0]), vec!["First paragraph Second line".to_string()]);
    assert_eq!(paragraph_texts(&doc[1]), vec!["Second paragraph\n<- literal \\n".to_string()]);
    assert_eq!(paragraph_texts(&doc[2]), vec!["Last paragraph ".to_string()]);
}

#[test]
fn tests_parse() {
    let (st, _) = parse_document(
        r#"
First paragraph
Second line

Second paragraph\
<- literal \\n


Last paragraph
			"#,
    );
    let doc = &st.doc.content;
    assert_eq!(paragraph_texts(&doc[0]), vec!["First paragraph Second line".to_string()]);
    assert_eq!(paragraph_texts(&doc[1]), vec!["Second paragraph\n<- literal \\n".to_string()]);
    assert_eq!(paragraph_texts(&doc[2]), vec!["Last paragraph ".to_string()]);
}

#[test]
fn paragraph_break_keeps_separate_paragraphs() {
    let (st, _) = parse_document("a\n\nb");
    assert_eq!(st.doc.content.len(), 2);
    assert_eq!(paragraph_texts(&st.doc.content[0]), vec!["a".to_string()]);
    assert_eq!(paragraph_texts(&st.doc.content[1]), vec!["b".to_string()]);
}

#[test]
fn a_break_closes_an_open_paragraph() {
    let b = nml::elements::linebreak::LineBreak { location: nml::document::Token { start: 0, end: 2 }, length: 2 };
    assert_eq!(b.compile(true), ("</p>".to_string(), false));
    assert_eq!(b.compile(false), (String::new(), false));
}

#[test]
fn a_refused_block_still_extends_the_paragraph() {
    let mut p = nml::elements::paragraph::Paragraph {
        location: nml::document::Token { start: 0, end: 3 },
        content: Vec::new(),
    };
    let block = nml::document::Element::Raw(nml::elements::raw::Raw {
        location: nml::document::Token { start: 5, end: 9 },
        kind: nml::document::ElemKind::Block,
        content: "x".to_string(),
    });
    let err = p.push(block).unwrap_err();
    assert_eq!(err, "Attempted to push block element inside a paragraph");
    assert!(p.content.is_empty());
    assert_eq!(p.location, nml::document::Token { start: 0, end: 9 });
}
