use nml::document::Element;
use nml::parser::parse_document;
use nml::semantics::SemKind;

fn text(e: &Element) -> String {
    match e {
        Element::Text(t) => t.content.clone(),
        _ => panic!("expected text"),
    }
}

fn check_links() {
    let (st, _) = parse_document(
        r#"
Some [link](url).
[**BOLD link**](another url)
			"#,
    );
    match &st.doc.content[0] {
        Element::Paragraph(p) => {
            assert_eq!(text(&p.content[0]), "Some ");
            match &p.content[1] {
                Element::Link(l) => {
                    assert_eq!(l.url, "url");
                    assert_eq!(text(&l.display[0]), "link");
                },
                _ => panic!("expected a link"),
            }
            assert_eq!(text(&p.content[2]), ".");
            match &p.content[3] {
                Element::Link(l) => {
                    assert_eq!(l.url, "another url");
                    assert!(matches!(l.display[0], Element::Style(_)));
                    assert_eq!(text(&l.display[1]), "BOLD link");
                    assert!(matches!(l.display[2], Element::Style(_)));
                },
                _ => panic!("expected a link"),
            }
        },
        _ => panic!("expected a paragraph"),
    }
}

#[test]
fn link_parser() {
    check_links();
}

fn check_link_semantics(src: &str, display_start: usize) {
    let (_, tokens) = parse_document(src);
    let expected = [
        (SemKind::ListBullet, 1, 1, 1),
        (SemKind::LinkDisplaySep, 0, display_start, 1),
        (SemKind::StyleMarker, 0, 6, 1),
        (SemKind::StyleMarker, 0, 6, 1),
        (SemKind::LinkDisplaySep, 0, 3, 1),
        (SemKind::LinkUrlSep, 0, 1, 1),
        (SemKind::LinkUrl, 0, 1, 3),
        (SemKind::LinkUrlSep, 0, 3, 1),
    ];
    for (i, (kind, dl, ds, len)) in expected.iter().enumerate() {
        assert_eq!(tokens[i].kind, *kind, "token {i}");
        assert_eq!(tokens[i].delta_line, *dl, "token {i}");
        assert_eq!(tokens[i].delta_start, *ds, "token {i}");
        assert_eq!(tokens[i].length, *len, "token {i}");
    }
}

#[test]
fn link_semantics() {
    check_link_semantics(
        r#"
 - [la\](*testi*nk](url)
		"#,
        2,
    );
}

#[test]
fn tests_semantics_link() {
    check_link_semantics(
        r#"
 -  [la\](*testi*nk](url)
		"#,
        3,
    );
}

#[test]
fn empty_link_url_is_reported() {
    let (st, _) = parse_document("[name]()");
    assert!(st.reports.iter().any(|r| r.code == nml::document::ReportCode::EmptyLinkUrl));
}
