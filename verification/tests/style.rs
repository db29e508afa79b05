use nml::elements::style::style_from_name;
use nml::document::Element;
use nml::parser::parse_document;
use nml::semantics::SemKind;

fn style_of(e: &Element) -> (usize, bool) {
    match e {
        Element::Style(s) => (s.kind, s.close),
        _ => panic!("expected a style marker"),
    }
}

#[test]
fn style_parser() {
    let (st, _) = parse_document(
        r#"
Some *style
terminated here*

**BOLD + *italic***
__`UNDERLINE+EM`__
"#,
    );
    let doc = &st.doc.content;
    match &doc[0] {
        Element::Paragraph(p) => {
            assert!(matches!(p.content[0], Element::Text(_)));
            assert_eq!(style_of(&p.content[1]), (1, false));
            assert!(matches!(p.content[2], Element::Text(_)));
            assert_eq!(style_of(&p.content[3]), (1, true));
        },
        _ => panic!("expected a paragraph"),
    }
    match &doc[1] {
        Element::Paragraph(p) => {
            assert_eq!(style_of(&p.content[0]), (0, false));
            assert!(matches!(p.content[1], Element::Text(_)));
            assert_eq!(style_of(&p.content[2]), (1, false));
            assert!(matches!(p.content[3], Element::Text(_)));
            assert_eq!(style_of(&p.content[4]), (0, true));
            assert_eq!(style_of(&p.content[5]), (1, true));
            assert_eq!(style_of(&p.content[6]), (2, false));
            assert_eq!(style_of(&p.content[7]), (3, false));
            assert!(matches!(p.content[8], Element::Text(_)));
            assert_eq!(style_of(&p.content[9]), (3, true));
            assert_eq!(style_of(&p.content[10]), (2, true));
        },
        _ => panic!("expected a paragraph"),
    }
}

#[test]
fn style_semantic() {
    let (_, tokens) = parse_document(
        r#"
**te📫st** `another`
__teかst__ *another*
		"#,
    );
    let expected = [
        (1, 0, 2),
        (0, 6 + '📫'.len_utf16(), 2),
        (0, 3, 1),
        (0, 8, 1),
        (1, 0, 2),
        (0, 6 + 'か'.len_utf16(), 2),
        (0, 3, 1),
        (0, 8, 1),
    ];
    for (i, (dl, ds, len)) in expected.iter().enumerate() {
        assert_eq!(tokens[i].kind, SemKind::StyleMarker, "token {i}");
        assert_eq!(tokens[i].delta_line, *dl, "token {i}");
        assert_eq!(tokens[i].delta_start, *ds, "token {i}");
        assert_eq!(tokens[i].length, *len, "token {i}");
    }
}

#[test]
fn unterminated_style_is_reported_at_paragraph_end() {
    let (st, _) = parse_document("**open\n\n# Section");
    assert_eq!(st.reports.len(), 1);
    assert_eq!(st.reports[0].code, nml::document::ReportCode::UnterminatedStyle);
    assert_eq!(st.reports[0].span.start, 0);
}

#[test]
fn style_names_for_scripts() {
    let name = |s: &str| s.chars().collect::<Vec<char>>();
    assert_eq!(style_from_name(&name("bold")), Some(0));
    assert_eq!(style_from_name(&name("Bold")), Some(0));
    assert_eq!(style_from_name(&name("italic")), Some(1));
    assert_eq!(style_from_name(&name("Underline")), Some(2));
    assert_eq!(style_from_name(&name("emphasis")), Some(3));
    assert_eq!(style_from_name(&name("BOLD")), None);
    assert_eq!(style_from_name(&name("code")), None);
}

#[test]
fn style_lua() {
    let src = "\nSome %<nml.style.toggle(\"italic\")>%style\nterminated here%<nml.style.toggle(\"Italic\")>%\n\n%<nml.style.toggle(\"Bold\")>%NOLD + %<nml.style.toggle(\"italic\")>%italic%<nml.style.toggle(\"bold\") nml.style.toggle(\"italic\")>%\n%<nml.style.toggle(\"Underline\") nml.style.toggle(\"Emphasis\")>%UNDERLINE+EM%<nml.style.toggle(\"emphasis\")>%%<nml.style.toggle(\"underline\")>%\n";
    let s: Vec<char> = src.chars().collect();
    let parser = nml::parser::Parser::new();
    let mode = nml::parser::ParseMode { paragraph_only: false };
    let mut st = nml::parser::ParseState::new();
    let mut pos = 0;
    while let Some((script, next)) = parser.parse_until_script(&s, mode, &mut st, pos) {
        // The names the script toggles, in order.
        for part in script.code.split("toggle(\"").skip(1) {
            let name = part.split('"').next().unwrap().to_string();
            let call = nml::bindings::BindingCall::ToggleStyle(name);
            assert!(parser.apply_binding(&mut st, call, script.location).is_ok());
        }
        pos = next;
    }
    let paragraphs: Vec<&Vec<Element>> = st
        .doc
        .content
        .iter()
        .filter_map(|e| match e {
            Element::Paragraph(p) => Some(&p.content),
            _ => None,
        })
        .collect();
    let markers = |c: &Vec<Element>| -> Vec<(usize, bool)> {
        c.iter().filter(|e| matches!(e, Element::Style(_))).map(style_of).collect()
    };
    assert_eq!(markers(paragraphs[0]), vec![(1, false), (1, true)]);
    assert!(matches!(paragraphs[0][0], Element::Text(_)));
    assert_eq!(
        markers(paragraphs[1]),
        vec![(0, false), (1, false), (0, true), (1, true), (2, false), (3, false), (3, true), (2, true)]
    );
    assert!(st.reports.is_empty());
}
