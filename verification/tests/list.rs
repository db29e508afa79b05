use nml::document::Element;
use nml::elements::list::elem::{parse_markers, List, ListEntry, ListMarker};
use nml::elements::list::{BulletMarker, CheckboxState, MarkerKind};
use nml::parser::parse_document;
use nml::semantics::SemKind;

fn marker(e: &Element) -> (bool, MarkerKind) {
    match e {
        Element::ListMarker(m) => (m.numbered, m.kind),
        _ => panic!("expected a list marker"),
    }
}

fn entry(e: &Element) -> (Vec<(bool, usize)>, Option<String>, Vec<String>) {
    match e {
        Element::ListEntry(en) => (
            en.numbering.clone(),
            en.bullet.clone(),
            en.content
                .iter()
                .map(|c| match c {
                    Element::Text(t) => t.content.clone(),
                    _ => panic!("expected text"),
                })
                .collect(),
        ),
        _ => panic!("expected a list entry"),
    }
}

#[test]
fn list_parser() {
    let (st, _) = parse_document(
        r#"
 * 1
 *[offset=7] 2
	continued
 * 3

 * New list
 *-[bullet=(*)] A
 *- B
 * Back
 *-* More nested
"#,
    );
    let d = &st.doc.content;
    assert_eq!(marker(&d[0]), (false, MarkerKind::Open));
    assert_eq!(entry(&d[1]).0, vec![(false, 1)]);
    assert_eq!(entry(&d[1]).2, vec!["1".to_string()]);
    assert_eq!(entry(&d[2]).0, vec![(false, 7)]);
    assert_eq!(entry(&d[2]).2, vec!["2 continued".to_string()]);
    assert_eq!(entry(&d[3]).0, vec![(false, 8)]);
    assert_eq!(entry(&d[3]).2, vec!["3".to_string()]);
    assert_eq!(marker(&d[4]), (false, MarkerKind::Close));
    assert!(matches!(d[5], Element::Paragraph(_)));
    assert_eq!(marker(&d[6]), (false, MarkerKind::Open));
    assert_eq!(entry(&d[7]).0, vec![(false, 1)]);
    assert_eq!(entry(&d[7]).2, vec!["New list".to_string()]);
    assert_eq!(marker(&d[8]), (true, MarkerKind::Open));
    assert_eq!(entry(&d[9]).0, vec![(false, 2), (true, 1)]);
    assert_eq!(entry(&d[9]).1, Some("(*)".to_string()));
    assert_eq!(entry(&d[9]).2, vec!["A".to_string()]);
    assert_eq!(entry(&d[10]).0, vec![(false, 2), (true, 2)]);
    assert_eq!(entry(&d[10]).1, Some("(*)".to_string()));
    assert_eq!(entry(&d[10]).2, vec!["B".to_string()]);
    assert_eq!(marker(&d[11]), (true, MarkerKind::Close));
    assert_eq!(entry(&d[12]).0, vec![(false, 2)]);
    assert_eq!(entry(&d[12]).2, vec!["Back".to_string()]);
    assert_eq!(marker(&d[13]), (true, MarkerKind::Open));
    assert_eq!(marker(&d[14]), (false, MarkerKind::Open));
    assert_eq!(entry(&d[15]).0, vec![(false, 3), (true, 1), (false, 1)]);
    assert_eq!(entry(&d[15]).2, vec!["More nested".to_string()]);
    assert_eq!(marker(&d[16]), (false, MarkerKind::Close));
    assert_eq!(marker(&d[17]), (true, MarkerKind::Close));
    assert_eq!(marker(&d[18]), (false, MarkerKind::Close));
}

#[test]
fn list_semantic() {
    let (_, tokens) = parse_document(
        r#"
 *[offset=5] First **bold**
	Second line
 *- Another
		"#,
    );
    let expected = [
        (SemKind::ListBullet, 1, 1, 1),
        (SemKind::ListPropsSep, 0, 1, 1),
        (SemKind::PropName, 0, 1, 6),
        (SemKind::PropEqual, 0, 6, 1),
        (SemKind::PropValue, 0, 1, 1),
        (SemKind::ListPropsSep, 0, 1, 1),
        (SemKind::StyleMarker, 0, 8, 2),
        (SemKind::StyleMarker, 0, 6, 2),
        (SemKind::ListBullet, 2, 1, 2),
    ];
    for (i, (kind, dl, ds, len)) in expected.iter().enumerate() {
        assert_eq!(tokens[i].kind, *kind, "token {i}");
        assert_eq!(tokens[i].delta_line, *dl, "token {i}");
        assert_eq!(tokens[i].delta_start, *ds, "token {i}");
        assert_eq!(tokens[i].length, *len, "token {i}");
    }
}

#[test]
fn list_bad_offset_is_reported() {
    let (st, _) = parse_document("\n *[offset=x] entry\n");
    assert_eq!(st.reports[0].code, nml::document::ReportCode::InvalidListOffset);
}

#[test]
fn list_entry_refuses_blocks() {
    let (st, _) = parse_document("\n * entry\n");
    let mut entry = st
        .doc
        .content
        .into_iter()
        .find_map(|e| match e {
            Element::ListEntry(x) => Some(x),
            _ => None,
        })
        .expect("an entry");
    let n = entry.content.len();
    let (other, _) = parse_document("# Title");
    let block = other.doc.content.into_iter().next().unwrap();
    assert_eq!(entry.push(block).unwrap_err(), "Cannot add block element inside a list");
    assert_eq!(entry.content.len(), n);
    let (inline, _) = parse_document("\n\nword");
    let word = match inline.doc.content.into_iter().next().unwrap() {
        Element::Paragraph(p) => p.content.into_iter().next().unwrap(),
        e => e,
    };
    assert!(entry.push(word).is_ok());
    assert_eq!(entry.content.len(), n + 1);
}

fn list_item(bullet: BulletMarker, markers: &[(bool, usize)]) -> ListEntry {
    ListEntry {
        location: nml::document::Token { start: 0, end: 0 },
        bullet,
        content: Vec::new(),
        markers: markers.iter().map(|&(numbered, offset)| ListMarker { numbered, offset }).collect(),
    }
}

#[test]
fn list_element_html() {
    let mut list = List { location: nml::document::Token { start: 0, end: 0 }, entries: Vec::new() };
    list.add_entry(list_item(BulletMarker::Bullet, &[(false, 1)]));
    list.add_entry(list_item(BulletMarker::Checkbox(CheckboxState::Checked), &[(false, 1)]));
    list.add_entry(list_item(BulletMarker::Bullet, &[(false, 0), (true, 1)]));
    let contents = vec!["a".to_string(), "b".to_string(), "c".to_string()];
    assert_eq!(
        list.compile(&contents),
        [
            "<ul><li>a</li>",
            r#"<li value="2"><input type="checkbox" class="checkbox-checked" onclick="return false;" checked>b</li>"#,
            r#"<li value="2">c</li></ul>"#,
        ]
        .concat()
    );
}

#[test]
fn list_element_kind_change_reopens() {
    let mut list = List { location: nml::document::Token { start: 0, end: 0 }, entries: Vec::new() };
    list.add_entry(list_item(BulletMarker::Checkbox(CheckboxState::Unchecked), &[(false, 1)]));
    list.add_entry(list_item(BulletMarker::Checkbox(CheckboxState::Partial), &[(true, 1)]));
    let contents = vec!["x".to_string(), "y".to_string()];
    assert_eq!(
        list.compile(&contents),
        [
            r#"<ul><li><input type="checkbox" class="checkbox-unchecked" onclick="return false;">x</li>"#,
            r#"</ul><ol><li><input type="checkbox" class="checkbox-partial" onclick="return false;">y</li></ol></ul>"#,
        ]
        .concat()
    );
}

#[test]
fn entry_levels_from_bullets() {
    let depth: Vec<char> = "*-".chars().collect();
    let same = [ListMarker { numbered: false, offset: 1 }, ListMarker { numbered: true, offset: 1 }];
    assert_eq!(
        parse_markers(&depth, 3, &same),
        vec![ListMarker { numbered: false, offset: 0 }, ListMarker { numbered: true, offset: 3 }]
    );
    let other = [ListMarker { numbered: true, offset: 1 }];
    assert_eq!(
        parse_markers(&depth, 3, &other),
        vec![ListMarker { numbered: false, offset: 1 }, ListMarker { numbered: true, offset: 3 }]
    );
    assert_eq!(parse_markers(&depth[..1], 1, &[]), vec![ListMarker { numbered: false, offset: 1 }]);
}
