use nml::document::Element;
use nml::elements::section::{NONE, NO_NUMBER, NO_TOC};
use nml::parser::parse_document;
use nml::semantics::SemKind;

const SECTIONS: &str = r#"
# 1
##+ 2
###* 3
####+* 4
#####*+ 5
######{refname} 6
		"#;

/// Checks the sections of `SECTIONS`; gives the number of sections.
fn check_sections() -> usize {
    let (st, _) = parse_document(SECTIONS);
    let expected: [(usize, &str, u8, Option<&str>); 6] = [
        (1, "1", NONE, None),
        (2, "2", NO_TOC, None),
        (3, "3", NO_NUMBER, None),
        (4, "4", NO_NUMBER | NO_TOC, None),
        (5, "5", NO_NUMBER | NO_TOC, None),
        (6, "6", NONE, Some("refname")),
    ];
    for (i, (depth, title, kind, reference)) in expected.iter().enumerate() {
        match &st.doc.content[i] {
            Element::Section(s) => {
                assert_eq!(s.depth, *depth);
                assert_eq!(s.title, *title);
                assert_eq!(s.kind, *kind);
                assert_eq!(s.reference.as_deref(), *reference);
            },
            _ => panic!("expected a section at {i}"),
        }
    }
    st.doc.content.iter().filter(|e| matches!(e, Element::Section(_))).count()
}

#[test]
fn section_parser() {
    assert_eq!(check_sections(), 6);
}

#[test]
fn section_tests_parser() {
    assert_eq!(check_sections(), 6);
}

#[test]
fn tests_semantics() {
    let (_, tokens) = parse_document(
        r#"
# First section
##{📫}+ test
#{refname}*+ Another section
		"#,
    );
    let expected: [(SemKind, usize, usize, Option<usize>); 10] = [
        (SemKind::SectionHeading, 1, 0, Some(1)),
        (SemKind::SectionName, 0, 1, None),
        (SemKind::SectionHeading, 1, 0, Some(2)),
        (SemKind::SectionReference, 0, 2, Some(4)),
        (SemKind::SectionKind, 0, 4, Some(1)),
        (SemKind::SectionName, 0, 1, None),
        (SemKind::SectionHeading, 1, 0, Some(1)),
        (SemKind::SectionReference, 0, 1, Some(9)),
        (SemKind::SectionKind, 0, 9, Some(2)),
        (SemKind::SectionName, 0, 2, None),
    ];
    for (i, (kind, dl, ds, len)) in expected.iter().enumerate() {
        assert_eq!(tokens[i].kind, *kind, "token {i}");
        assert_eq!(tokens[i].delta_line, *dl, "token {i}");
        assert_eq!(tokens[i].delta_start, *ds, "token {i}");
        if let Some(len) = len {
            assert_eq!(tokens[i].length, *len, "token {i}");
        }
    }
}

#[test]
fn section_too_deep_is_reported() {
    let (st, _) = parse_document("####### seven");
    assert_eq!(st.reports[0].code, nml::document::ReportCode::InvalidSectionDepth);
}

/// What the script of the section tests pushes: title, depth, kind and
/// reference name of each section.
const PUSHED: [(&str, usize, &str, Option<&str>); 6] = [
    ("1", 1, "", None),
    ("2", 2, "+", None),
    ("3", 3, "*", None),
    ("4", 4, "+*", None),
    ("5", 5, "*+", None),
    ("6", 6, "", Some("refname")),
];

/// Pushes the sections of `PUSHED` and checks them; gives the number of
/// sections in the document.
fn check_pushed_sections() -> usize {
    let src = "\n%<\nnml.section.push(\"1\", 1, \"\", nil)\nnml.section.push(\"2\", 2, \"+\", nil)\nnml.section.push(\"3\", 3, \"*\", nil)\nnml.section.push(\"4\", 4, \"+*\", nil)\nnml.section.push(\"5\", 5, \"*+\", nil)\nnml.section.push(\"6\", 6, \"\", \"refname\")\n>%\n\t\t";
    let s: Vec<char> = src.chars().collect();
    let parser = nml::parser::Parser::new();
    let mode = nml::parser::ParseMode { paragraph_only: false };
    let mut st = nml::parser::ParseState::new();
    let mut pos = 0;
    while let Some((script, next)) = parser.parse_until_script(&s, mode, &mut st, pos) {
        for (title, depth, kind, reference) in PUSHED {
            let call = nml::bindings::BindingCall::PushSection(
                title.to_string(),
                depth,
                Some(kind.to_string()),
                reference.map(|r| r.to_string()),
            );
            assert!(parser.apply_binding(&mut st, call, script.location).is_ok());
        }
        pos = next;
    }
    let expected: [(usize, &str, u8, Option<&str>); 6] = [
        (1, "1", NONE, None),
        (2, "2", NO_TOC, None),
        (3, "3", NO_NUMBER, None),
        (4, "4", NO_NUMBER | NO_TOC, None),
        (5, "5", NO_NUMBER | NO_TOC, None),
        (6, "6", NONE, Some("refname")),
    ];
    for (i, (depth, title, kind, reference)) in expected.iter().enumerate() {
        match &st.doc.content[i] {
            Element::Section(s) => {
                assert_eq!(s.depth, *depth);
                assert_eq!(s.title, *title);
                assert_eq!(s.kind, *kind);
                assert_eq!(s.reference.as_deref(), *reference);
            },
            _ => panic!("expected a section at {i}"),
        }
    }
    st.doc.content.iter().filter(|e| matches!(e, Element::Section(_))).count()
}

#[test]
fn section_lua() {
    assert_eq!(check_pushed_sections(), 6);
}

#[test]
fn tests_lua() {
    assert_eq!(check_pushed_sections(), 6);
}

#[test]
fn missing_section_spacing_is_a_warning() {
    let (st, _) = parse_document("#abc");
    assert_eq!(st.reports.len(), 1);
    assert_eq!(st.reports[0].code, nml::document::ReportCode::MissingSectionSpacing);
    assert_eq!(st.reports[0].kind, nml::document::ReportKind::Warning);
    assert!(!st.doc.content.iter().any(|e| matches!(e, Element::Section(_))));
}

#[test]
fn a_refused_heading_still_warns_of_a_taken_name() {
    let (st, _) = parse_document("#{a} One\n#{a}Two");
    assert_eq!(st.reports.len(), 2);
    assert_eq!(st.reports[0].code, nml::document::ReportCode::DuplicateReferenceName);
    assert_eq!(st.reports[0].kind, nml::document::ReportKind::Warning);
    assert_eq!((st.reports[0].span.start, st.reports[0].span.end), (11, 12));
    assert_eq!(st.reports[1].code, nml::document::ReportCode::MissingSectionSpacing);
    assert_eq!(st.doc.content.iter().filter(|e| matches!(e, Element::Section(_))).count(), 1);
}
