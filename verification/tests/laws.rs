use nml::elements::internal_link::{refname_from, Refname};
use nml::document::{Document, Element, Report, ReportCode, ReportKind, Token};
use nml::elements::layout::{LayoutState, LayoutToken, LayoutType};
use nml::elements::linebreak::BreakRule;
use nml::elements::list::{bullet_marker, push_markers, BulletMarker, CheckboxState, MarkerKind};
use nml::elements::section::Section;
use nml::elements::style::StyleState;
use nml::elements::text::Text;
use nml::parser::{parse_document, register, ParseState, RuleId};
use nml::semantics::{SemKind, Semantics};

fn tok(a: usize, b: usize) -> Token {
    Token { start: a, end: b }
}

#[test]
fn encoded_tokens_decode_to_their_positions() {
    let src = "\n**a** `b`\n__c__";
    let (_, tokens) = parse_document(src);
    let mut line = 0;
    let mut col = 0;
    let mut positions = Vec::new();
    for t in &tokens {
        if t.delta_line > 0 {
            line += t.delta_line;
            col = t.delta_start;
        } else {
            col += t.delta_start;
        }
        positions.push((line, col, t.length, t.kind));
    }
    assert_eq!(
        positions,
        vec![
            (1, 0, 2, SemKind::StyleMarker),
            (1, 3, 2, SemKind::StyleMarker),
            (1, 6, 1, SemKind::StyleMarker),
            (1, 8, 1, SemKind::StyleMarker),
            (2, 0, 2, SemKind::StyleMarker),
            (2, 3, 2, SemKind::StyleMarker),
        ]
    );
}

#[test]
fn toggling_a_style_twice_restores_it() {
    let mut st = StyleState::new();
    let before = st.toggled.clone();
    assert!(!st.toggle(2, tok(3, 5)));
    assert_eq!(st.toggled[2], Some(tok(3, 5)));
    assert!(st.toggle(2, tok(3, 5)));
    assert_eq!(st.toggled, before);
}

#[test]
fn list_markers_reach_the_target_depth() {
    let current = vec![(false, 1), (true, 2), (false, 1)];
    let target = vec![(false, 2), (false, 1)];
    let markers = push_markers(&current, &target);
    let mut stack: Vec<bool> = current.iter().map(|x| x.0).collect();
    for (kind, numbered) in &markers {
        match kind {
            MarkerKind::Close => assert_eq!(stack.pop(), Some(*numbered)),
            MarkerKind::Open => stack.push(*numbered),
        }
    }
    assert_eq!(stack, vec![false, false]);
    assert_eq!(markers, vec![(MarkerKind::Close, false), (MarkerKind::Close, true), (MarkerKind::Open, false)]);
}

#[test]
fn layout_begin_then_end_restores_the_stack() {
    let (st, _) = parse_document("#+LAYOUT_BEGIN Centered\nA\n#+LAYOUT_END\n");
    assert!(st.reports.is_empty());
    let mut state = LayoutState::new();
    let b = state.push_marker(LayoutToken::Begin, LayoutType::Split, String::new(), tok(0, 1)).unwrap();
    assert_eq!(b.id, 0);
    let n = state.push_marker(LayoutToken::Next, LayoutType::Split, String::new(), tok(2, 3)).unwrap();
    assert_eq!(n.id, 1);
    assert_eq!(
        state.push_marker(LayoutToken::Next, LayoutType::Centered, String::new(), tok(4, 5)).err(),
        Some(nml::document::ReportCode::LayoutMismatch)
    );
    let e = state.push_marker(LayoutToken::End, LayoutType::Split, String::new(), tok(6, 7)).unwrap();
    assert_eq!(e.id, 2);
    assert!(state.stack.is_empty());
}

#[test]
fn document_push_keeps_order_and_paragraphs() {
    let mut doc = Document::new();
    doc.push(Element::Text(Text::new(tok(0, 1), "a".to_string())));
    doc.push(Element::Section(Section {
        location: tok(1, 2),
        title: "s".to_string(),
        depth: 1,
        kind: 0,
        reference: None,
    }));
    doc.push(Element::Text(Text::new(tok(2, 3), "b".to_string())));
    doc.push(Element::Text(Text::new(tok(3, 4), "c".to_string())));
    assert_eq!(doc.content.len(), 3);
    match &doc.content[2] {
        Element::Paragraph(p) => {
            assert_eq!(p.content.len(), 2);
            assert_eq!(p.location, tok(2, 4));
        },
        _ => panic!("expected a paragraph"),
    }
    assert!(matches!(doc.content[1], Element::Section(_)));
}

#[test]
fn rules_are_registered_in_order() {
    let r = register();
    assert_eq!(r.len(), 14);
    assert_eq!(r[0], RuleId::Paragraph);
    assert_eq!(r[10], RuleId::Reference);
}

#[test]
fn earliest_match_wins_and_ties_go_to_the_first_rule() {
    let (st, _) = parse_document("{?raw?} $x$");
    match &st.doc.content[0] {
        Element::Paragraph(p) => {
            assert!(matches!(p.content[0], Element::Raw(_)));
            assert!(matches!(p.content[1], Element::Text(_)));
            assert!(matches!(p.content[2], Element::Latex(_)));
        },
        _ => panic!("expected a paragraph"),
    }
}

#[test]
fn break_rule_matches_trailing_blank_lines() {
    let rule = BreakRule::new();
    let s: Vec<char> = "text\n  \n\t\n".chars().collect();
    let p = rule.find(&s, 0).unwrap();
    assert_eq!(p, 4);
    let lb = rule.on_match(&s, p);
    assert_eq!(lb.length, 3);
    assert_eq!(lb.location, tok(4, s.len()));
    let t: Vec<char> = "a\nb".chars().collect();
    assert_eq!(rule.find(&t, 0), None);
}

#[test]
fn checkbox_bullets() {
    let x: Vec<char> = "x".chars().collect();
    let dash: Vec<char> = "-".chars().collect();
    let bad: Vec<char> = "?".chars().collect();
    assert_eq!(bullet_marker(None), Some(BulletMarker::Bullet));
    assert_eq!(bullet_marker(Some(&[])), Some(BulletMarker::Checkbox(CheckboxState::Unchecked)));
    assert_eq!(bullet_marker(Some(&x)), Some(BulletMarker::Checkbox(CheckboxState::Checked)));
    assert_eq!(bullet_marker(Some(&dash)), Some(BulletMarker::Checkbox(CheckboxState::Partial)));
    assert_eq!(bullet_marker(Some(&bad)), None);
}

#[test]
fn refname_text_reads_back() {
    use_refname_roundtrip(Refname::External("doc".to_string(), "name".to_string()), "doc#name");
    use_refname_roundtrip(Refname::External(String::new(), "any".to_string()), "#any");
    use_refname_roundtrip(Refname::Internal("local.name".to_string()), "local.name");
}

fn use_refname_roundtrip(r: Refname, text: &str) {
    let written = r.to_text();
    assert_eq!(written, text);
    let chars: Vec<char> = written.chars().collect();
    match (refname_from(&chars).expect("reads back"), r) {
        (Refname::Internal(a), Refname::Internal(b)) => assert_eq!(a, b),
        (Refname::External(u, n), Refname::External(v, m)) => {
            assert_eq!(u, v);
            assert_eq!(n, m);
        },
        _ => panic!("another kind of name"),
    }
}

#[test]
fn sanitized_text_holds_no_markup() {
    let s: Vec<char> = r#"<a href="x">&</a>"#.chars().collect();
    let out: String = nml::compile::sanitize(&s).into_iter().collect();
    assert_eq!(out, "&lt;a href=&quot;x&quot;&gt;&amp;&lt;/a&gt;");
    assert!(!out.contains('<') && !out.contains('>') && !out.contains('"'));
    let plain: Vec<char> = "plain words".chars().collect();
    assert_eq!(nml::compile::sanitize(&plain), plain);
}

#[test]
fn merged_tokens_and_reports_move_by_the_offset() {
    let mut st = ParseState::new();
    let mut sub = Semantics::new();
    sub.add(0, 3, SemKind::StyleMarker);
    sub.add(usize::MAX - 1, usize::MAX, SemKind::StyleMarker);
    let reports = vec![Report { kind: ReportKind::Error, code: ReportCode::UnterminatedStyle, span: tok(1, 2) }];
    st.merge(&sub, &reports, 5);
    assert_eq!(st.sems.tokens.len(), 1);
    assert_eq!((st.sems.tokens[0].start, st.sems.tokens[0].end), (5, 8));
    assert_eq!(st.reports[0].span, tok(6, 7));

    let mut mapped = ParseState::new();
    let map = vec![10, 12, 13];
    mapped.merge_mapped(&sub, &reports, &map);
    assert_eq!(mapped.sems.tokens.len(), 1);
    assert_eq!((mapped.sems.tokens[0].start, mapped.sems.tokens[0].end), (10, 14));
    assert_eq!(mapped.reports[0].span, tok(12, 13));
}

#[test]
fn property_tokens_cover_names_signs_values_and_commas() {
    let s: Vec<char> = "a=b, c = d".chars().collect();
    let mut sems = Semantics::new();
    nml::properties::add_property_tokens(&s, 0, s.len(), &mut sems);
    let got: Vec<(usize, usize, SemKind)> = sems.tokens.iter().map(|t| (t.start, t.end, t.kind)).collect();
    assert_eq!(
        got,
        vec![
            (0, 1, SemKind::PropName),
            (1, 2, SemKind::PropEqual),
            (2, 3, SemKind::PropValue),
            (3, 4, SemKind::PropComma),
            (5, 6, SemKind::PropName),
            (7, 8, SemKind::PropEqual),
            (9, 10, SemKind::PropValue),
        ]
    );
}

#[test]
fn text_without_markup_parses_to_one_text() {
    let parser = nml::parser::Parser::new();
    let s: Vec<char> = "Hello world".chars().collect();
    let st = parser.parse(&s, nml::parser::ParseMode { paragraph_only: false });
    assert!(st.reports.is_empty());
    assert!(st.sems.tokens.is_empty());
    match &st.doc.content[0] {
        Element::Paragraph(p) => {
            assert_eq!(p.content.len(), 1);
            match &p.content[0] {
                Element::Text(t) => {
                    assert_eq!(t.content, "Hello world");
                    assert_eq!(t.location, tok(0, 11));
                },
                _ => panic!("expected text"),
            }
        },
        _ => panic!("expected a paragraph"),
    }
}

#[test]
fn a_fresh_parse_state_is_empty() {
    let st = ParseState::new();
    assert!(st.doc.content.is_empty() && st.reports.is_empty() && st.sems.tokens.is_empty());
    assert!(st.styles.toggled.iter().all(|t| t.is_none()));
    assert!(st.layouts.stack.is_empty());
}
