use nml::document::Element;
use nml::elements::script::ScriptKind;
use nml::parser::{parse_document, ParseMode, ParseState, Parser};
use nml::semantics::SemKind;

#[test]
fn script_tests_semantic() {
    let (_, tokens) = parse_document(
        r#"
%<[test]! "Hello World">%
@<main
function add(x, y)
	return x + y
end
>@
		"#,
    );
    let expected = [
        (SemKind::ScriptSep, 1, 0, 2),
        (SemKind::ScriptKernelSep, 0, 2, 1),
        (SemKind::ScriptKernel, 0, 1, 4),
        (SemKind::ScriptKernelSep, 0, 4, 1),
        (SemKind::ScriptKind, 0, 1, 1),
        (SemKind::ScriptSep, 0, 15, 2),
        (SemKind::ScriptSep, 1, 0, 2),
        (SemKind::ScriptKernel, 0, 2, 4),
        (SemKind::ScriptSep, 4, 0, 2),
    ];
    for (i, (kind, dl, ds, len)) in expected.iter().enumerate() {
        assert_eq!(tokens[i].kind, *kind, "token {i}");
        assert_eq!(tokens[i].delta_line, *dl, "token {i}");
        assert_eq!(tokens[i].delta_start, *ds, "token {i}");
        assert_eq!(tokens[i].length, *len, "token {i}");
    }
}

#[test]
fn scripts_are_recorded() {
    let (st, _) = parse_document("%<\" 1+1>%");
    let scripts: Vec<_> = st
        .doc
        .content
        .iter()
        .flat_map(|e| match e {
            Element::Paragraph(p) => p.content.iter().collect::<Vec<_>>(),
            other => vec![other],
        })
        .filter_map(|e| match e {
            Element::Script(s) => Some(s),
            _ => None,
        })
        .collect();
    assert_eq!(scripts.len(), 1);
    assert_eq!(scripts[0].kind, ScriptKind::EvalText);
    assert_eq!(scripts[0].kernel, "main");
    assert_eq!(scripts[0].code, "1+1");
}

#[test]
fn parsing_stops_at_each_script() {
    let s: Vec<char> = "Some %<\" text>% then\n@<main\nrun()\n>@\nend".chars().collect();
    let parser = Parser::new();
    let mode = ParseMode { paragraph_only: false };
    let mut st = ParseState::new();
    let (first, next) = parser.parse_until_script(&s, mode, &mut st, 0).expect("a script");
    assert_eq!(first.kind, ScriptKind::EvalText);
    assert_eq!(first.code, "text");
    assert_eq!(first.location.start, 5);
    let (second, after) = parser.parse_until_script(&s, mode, &mut st, next).expect("another script");
    assert_eq!(second.kind, ScriptKind::Exec);
    assert!(after > next);
    assert!(parser.parse_until_script(&s, mode, &mut st, after).is_none());
    let has_script = st.doc.content.iter().any(|e| match e {
        Element::Paragraph(p) => p.content.iter().any(|c| matches!(c, Element::Script(_))),
        other => matches!(other, Element::Script(_)),
    });
    assert!(!has_script);
    match &st.doc.content[0] {
        Element::Paragraph(p) => match &p.content[0] {
            Element::Text(t) => assert!(t.content.starts_with("Some")),
            _ => panic!("expected text"),
        },
        _ => panic!("expected a paragraph"),
    }
}

#[test]
fn eval_kinds_are_listed_by_symbol_and_name() {
    let rule = nml::elements::script::ScriptRule::new();
    let table: Vec<(&str, &str)> = rule.eval_kinds.iter().map(|(a, b)| (a.as_str(), b.as_str())).collect();
    assert_eq!(table, vec![("", "Eval"), ("\"", "Eval to text"), ("!", "Eval and parse")]);
    let chars = |x: &str| -> Vec<char> { x.chars().collect() };
    assert_eq!(rule.validate_kind(&chars("")), Ok(0));
    assert_eq!(rule.validate_kind(&chars("\"")), Ok(1));
    assert_eq!(rule.validate_kind(&chars("!")), Ok(2));
    let err = rule.validate_kind(&chars("'")).unwrap_err();
    assert_eq!(
        err,
        "Unable to find eval kind `'`. Available kinds:\n - '' => Eval\n - '\"' => Eval to text\n - '!' => Eval and parse"
    );
}
