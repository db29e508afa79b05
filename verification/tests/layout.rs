use nml::elements::layout::LayoutToken;
use nml::parser::parse_document;
use nml::semantics::SemKind;

const LAYOUT: &str = r#"
#+LAYOUT_BEGIN Split
	#+LAYOUT_NEXT[style=aa]
#+LAYOUT_END
		"#;

fn check_layout_semantics() {
    let (_, tokens) = parse_document(LAYOUT);
    let expected = [
        (SemKind::LayoutSep, 1, 0, 2),
        (SemKind::LayoutToken, 0, 2, 12),
        (SemKind::LayoutType, 0, 12, 6),
        (SemKind::LayoutSep, 1, 1, 2),
        (SemKind::LayoutToken, 0, 2, 11),
        (SemKind::LayoutPropsSep, 0, 11, 1),
        (SemKind::LayoutProps, 0, 1, 8),
        (SemKind::LayoutPropsSep, 0, 8, 1),
        (SemKind::LayoutSep, 1, 0, 2),
        (SemKind::LayoutToken, 0, 2, 10),
    ];
    for (i, (kind, dl, ds, len)) in expected.iter().enumerate() {
        assert_eq!(tokens[i].kind, *kind, "token {i}");
        assert_eq!(tokens[i].delta_line, *dl, "token {i}");
        assert_eq!(tokens[i].delta_start, *ds, "token {i}");
        assert_eq!(tokens[i].length, *len, "token {i}");
    }
}

#[test]
fn layout_semantic() {
    check_layout_semantics();
}

#[test]
fn tests_semantic() {
    check_layout_semantics();
}

#[test]
fn unterminated_layout_is_reported() {
    let (st, _) = parse_document("#+LAYOUT_BEGIN Centered\ntext\n");
    assert!(st.reports.iter().any(|r| r.code == nml::document::ReportCode::UnterminatedLayout));
}

#[test]
fn center_layout_takes_no_properties() {
    let center = nml::elements::layout::CenterLayout {};
    assert_eq!(center.name(), "center");
    assert_eq!(center.expects(), (1, 1));
    assert!(center.parse_properties(nml::document::Token { start: 4, end: 4 }).is_ok());
    let err = center.parse_properties(nml::document::Token { start: 4, end: 9 }).unwrap_err();
    assert_eq!(err.code, nml::document::ReportCode::InvalidLayoutProperties);
    assert_eq!(center.compile(LayoutToken::Begin), r#"<div style="margin: auto">"#);
    assert_eq!(center.compile(LayoutToken::Next), "");
    assert_eq!(center.compile(LayoutToken::End), "</div>");
}

#[test]
fn centered_layout_refuses_a_next_block() {
    let (st, _) = parse_document("#+LAYOUT_BEGIN Centered\na\n#+LAYOUT_NEXT\nb\n#+LAYOUT_END");
    let refused: Vec<_> = st
        .reports
        .iter()
        .filter(|r| r.code == nml::document::ReportCode::UnexpectedLayoutNext)
        .collect();
    assert_eq!(refused.len(), 1);
    assert_eq!(refused[0].kind, nml::document::ReportKind::Error);
    let tokens: Vec<LayoutToken> = st
        .doc
        .content
        .iter()
        .filter_map(|e| match e {
            nml::document::Element::Layout(l) => Some(l.token),
            _ => None,
        })
        .collect();
    assert_eq!(tokens, vec![LayoutToken::Begin, LayoutToken::End]);
}

#[test]
fn layout_properties_are_reported_over_their_range() {
    let (st, _) = parse_document("#+LAYOUT_BEGIN[nope=1] Split\n#+LAYOUT_END");
    let r = st
        .reports
        .iter()
        .find(|r| r.code == nml::document::ReportCode::InvalidLayoutProperties)
        .unwrap();
    assert_eq!(r.span, nml::document::Token { start: 15, end: 21 });
}

#[test]
fn inserting_a_layout_keeps_the_others() {
    let mut holder = nml::elements::layout::LayoutHolder::new();
    let before = holder.layouts.clone();
    holder.insert(nml::elements::layout::LayoutType::Split);
    assert_eq!(holder.layouts, before);
    let name: Vec<char> = "Centered".chars().collect();
    assert_eq!(holder.get(&name), Some(nml::elements::layout::LayoutType::Centered));
    let unknown: Vec<char> = "grid".chars().collect();
    assert_eq!(holder.get(&unknown), None);
}

#[test]
fn layout_tokens_are_read_by_name() {
    let begin: Vec<char> = "Begin".chars().collect();
    let next: Vec<char> = "Next".chars().collect();
    let end: Vec<char> = "End".chars().collect();
    let other: Vec<char> = "Middle".chars().collect();
    assert_eq!(LayoutToken::from_str(&begin), Some(LayoutToken::Begin));
    assert_eq!(LayoutToken::from_str(&next), Some(LayoutToken::Next));
    assert_eq!(LayoutToken::from_str(&end), Some(LayoutToken::End));
    assert_eq!(LayoutToken::from_str(&other), None);
}

#[test]
fn refused_layout_properties_say_why() {
    let rule = nml::elements::layout::LayoutRule::new();
    let props: Vec<char> = "nope=1".chars().collect();
    let range = Some(nml::document::Token { start: 0, end: props.len() });
    assert_eq!(rule.parse_properties(&props, range), None);
    assert_eq!(
        rule.properties_message(&props, range, nml::elements::layout::LayoutType::Split),
        Some("Failed to parse properties for layout Split: Unknown property `nope`".to_string())
    );
    let good: Vec<char> = "style=b".chars().collect();
    let range = Some(nml::document::Token { start: 0, end: good.len() });
    assert_eq!(rule.properties_message(&good, range, nml::elements::layout::LayoutType::Split), None);
}

#[test]
fn scripts_push_layout_markers() {
    let parser = nml::parser::Parser::new();
    let mut st = nml::parser::ParseState::new();
    let at = nml::document::Token { start: 0, end: 1 };
    let call = |t: &str, p: &str| {
        nml::bindings::BindingCall::PushLayout(t.to_string(), "Split".to_string(), p.to_string())
    };
    assert!(parser.apply_binding(&mut st, call("Begin", "style=a"), at).is_ok());
    assert!(parser.apply_binding(&mut st, call("next", ""), at).is_ok());
    match parser.apply_binding(&mut st, call("End", "nope=1"), at) {
        Err(nml::bindings::BindingError::InvalidLayoutProperties(m)) => {
            assert_eq!(m, "Failed to parse properties for layout Split: Unknown property `nope`");
        },
        _ => panic!("expected refused properties"),
    }
    assert!(parser.apply_binding(&mut st, call("End", ""), at).is_ok());
    match parser.apply_binding(&mut st, call("End", ""), at) {
        Err(nml::bindings::BindingError::Layout(code)) => assert_eq!(code, nml::document::ReportCode::NoActiveLayout),
        _ => panic!("expected no open layout"),
    }
    let tokens: Vec<(LayoutToken, usize, String)> = st
        .doc
        .content
        .iter()
        .filter_map(|e| match e {
            nml::document::Element::Layout(l) => Some((l.token, l.id, l.style.clone())),
            _ => None,
        })
        .collect();
    assert_eq!(
        tokens,
        vec![(LayoutToken::Begin, 0, "a".to_string()), (LayoutToken::Next, 1, String::new()), (LayoutToken::End, 2, String::new())]
    );
}
