use nml::document::Element;
use nml::elements::media::{MediaRule, MediaType};
use nml::parser::parse_document;

fn check_regex() {
    let rule = MediaRule::new();
    assert!(rule.is_match("![refname](some path...)[some properties] some description"));
    assert!(rule.is_match(
        r"![refname](some p\)ath...\\)[some propert\]ies\\\\] some description\\nanother line"
    ));
    assert!(rule.is_match_at("![r1](uri1)[props1] desc1\n![r2](uri2)[props2] desc2", 26));
}

#[test]
fn media_regex() {
    check_regex();
}

#[test]
fn tests_regex() {
    check_regex();
}

#[test]
fn element_test() {
    let (st, _) = parse_document(
        r#"
![ref1](  image.png )[width = 200px, caption = Caption\,] Description
![ref2]( ur\)i\\)[type=audio]
				"#,
    );
    let group = match &st.doc.content[0] {
        Element::Media(g) => g,
        _ => panic!("expected media"),
    };
    let first = &group.media[0];
    assert_eq!(first.reference, "ref1");
    assert_eq!(first.uri, "image.png");
    assert_eq!(first.media_type, MediaType::IMAGE);
    assert_eq!(first.width, Some("200px".to_string()));
    assert_eq!(first.caption, Some("Caption,".to_string()));

    let second = &group.media[1];
    assert_eq!(second.reference, "ref2");
    assert_eq!(second.uri, "ur)i\\");
    assert_eq!(second.media_type, MediaType::AUDIO);
}

#[test]
fn media_without_type_is_reported() {
    let (st, _) = parse_document("![r](file.unknown)");
    assert_eq!(st.reports[0].code, nml::document::ReportCode::MissingMediaType);
}

#[test]
fn medium_reference_html() {
    let (st, _) = parse_document("![pic](a.png)");
    let group = match &st.doc.content[0] {
        Element::Media(g) => g,
        _ => panic!("expected media"),
    };
    let m = &group.media[0];
    assert_eq!(m.compile_reference(3, None), r#"<a class="medium-ref">(3)<img src="a.png"></a>"#);
    let cap = "the picture".to_string();
    assert_eq!(
        m.compile_reference(3, Some(&cap)),
        r#"<a class="medium-ref">the picture<img src="a.png"></a>"#
    );
}
