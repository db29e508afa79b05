use nml::document::{ElemKind, Element};
use nml::parser::parse_document;
use nml::semantics::SemKind;

fn flatten(content: &[Element]) -> Vec<&Element> {
    let mut out = Vec::new();
    for e in content {
        match e {
            Element::Paragraph(p) => out.extend(p.content.iter()),
            other => out.push(other),
        }
    }
    out
}

fn raw_of(e: &Element) -> (ElemKind, String) {
    match e {
        Element::Raw(r) => (r.kind, r.content.clone()),
        _ => panic!("expected raw code"),
    }
}

#[test]
fn raw_parser() {
    let (st, _) = parse_document(
        r#"
Break{?[kind=block] Raw?}NewParagraph{?<b>?}
				"#,
    );
    let doc = &st.doc.content;
    assert!(matches!(doc[0], Element::Paragraph(_)));
    assert_eq!(raw_of(&doc[1]), (ElemKind::Block, "Raw".to_string()));
    match &doc[2] {
        Element::Paragraph(p) => {
            assert!(matches!(p.content[0], Element::Text(_)));
            assert_eq!(raw_of(&p.content[1]), (ElemKind::Inline, "<b>".to_string()));
        },
        _ => panic!("expected a paragraph"),
    }
}

#[test]
fn raw_semantic() {
    let (_, tokens) = parse_document(
        r#"
{?[kind=block] Raw?}
{?<b>?}
		"#,
    );
    let expected = [
        (SemKind::RawSep, 1, 0, 2),
        (SemKind::RawPropsSep, 0, 2, 1),
        (SemKind::RawProps, 0, 1, 10),
        (SemKind::RawPropsSep, 0, 10, 1),
        (SemKind::RawContent, 0, 1, 4),
        (SemKind::RawSep, 0, 4, 2),
        (SemKind::RawSep, 1, 0, 2),
        (SemKind::RawContent, 0, 2, 3),
        (SemKind::RawSep, 0, 3, 2),
    ];
    for (i, (kind, dl, ds, len)) in expected.iter().enumerate() {
        assert_eq!(tokens[i].kind, *kind, "token {i}");
        assert_eq!(tokens[i].delta_line, *dl, "token {i}");
        assert_eq!(tokens[i].delta_start, *ds, "token {i}");
        assert_eq!(tokens[i].length, *len, "token {i}");
    }
}

#[test]
fn tests_parser() {
    let (st, _) = parse_document(
        r#"
{<inline foo
bar>}
{<block baz>}
{<invisible quz>}
"#,
    );
    assert!(st.reports.is_empty());
    let flat = flatten(&st.doc.content);
    assert_eq!(raw_of(flat[0]), (ElemKind::Inline, "foo\nbar".to_string()));
    assert_eq!(raw_of(flat[1]), (ElemKind::Block, "baz".to_string()));
    assert_eq!(raw_of(flat[2]), (ElemKind::Invisible, "quz".to_string()));
}

#[test]
fn raw_unterminated_is_reported() {
    let (st, _) = parse_document("{?never closed");
    assert_eq!(st.reports.len(), 1);
    assert_eq!(st.reports[0].code, nml::document::ReportCode::UnterminatedRaw);
}

/// Runs the parse of `src`, handing each script to `run` when the parse
/// reaches it.
fn parse_with(src: &str, mut run: impl FnMut(&mut nml::parser::ParseState, &nml::elements::script::Script)) -> nml::parser::ParseState {
    let s: Vec<char> = src.chars().collect();
    let parser = nml::parser::Parser::new();
    let mode = nml::parser::ParseMode { paragraph_only: false };
    let mut st = nml::parser::ParseState::new();
    let mut pos = 0;
    while let Some((script, next)) = parser.parse_until_script(&s, mode, &mut st, pos) {
        run(&mut st, &script);
        pos = next;
    }
    st
}

#[test]
fn raw_lua() {
    let src = "\nBreak%<nml.raw.push(\"block\", \"Raw\")>%NewParagraph%<nml.raw.push(\"inline\", \"<b>\")>%\n\t\t\t\t";
    let mut pushes = vec![("block", "Raw"), ("inline", "<b>")].into_iter();
    let bindings = nml::parser::Parser::new();
    let st = parse_with(src, |st, script| {
        let (kind, content) = pushes.next().unwrap();
        let call = nml::bindings::BindingCall::PushRaw(kind.to_string(), content.to_string());
        assert!(bindings.apply_binding(st, call, script.location).is_ok());
    });
    let doc = &st.doc.content;
    assert!(matches!(doc[0], Element::Paragraph(_)));
    assert_eq!(raw_of(&doc[1]), (ElemKind::Block, "Raw".to_string()));
    match &doc[2] {
        Element::Paragraph(p) => {
            assert!(matches!(p.content[0], Element::Text(_)));
            assert_eq!(raw_of(&p.content[1]), (ElemKind::Inline, "<b>".to_string()));
        },
        _ => panic!("expected a paragraph"),
    }
}

#[test]
fn empty_raw_code_is_warned_about() {
    let (st, _) = parse_document("{?[kind=block]   ?}");
    assert_eq!(st.reports.len(), 1);
    assert_eq!(st.reports[0].code, nml::document::ReportCode::EmptyRaw);
    assert_eq!(st.reports[0].kind, nml::document::ReportKind::Warning);
    assert_eq!(st.reports[0].span, nml::document::Token { start: 14, end: 17 });
    assert_eq!(raw_of(flatten(&st.doc.content)[0]), (ElemKind::Block, String::new()));
}
