use nml::document::{Element, ReportCode};
use nml::elements::lua::LuaEvalKind;
use nml::elements::script::ScriptKind;
use nml::parser::parse_document;

fn flat(content: &[Element]) -> Vec<&Element> {
    let mut out = Vec::new();
    for e in content {
        match e {
            Element::Paragraph(p) => out.extend(p.content.iter()),
            other => out.push(other),
        }
    }
    out
}

#[test]
fn lua_block_is_recorded() {
    let (st, _) = parse_document(":lua kernel=k, delim=END\nprint(1)\nEND\nafter");
    let f = flat(&st.doc.content);
    match f[0] {
        Element::Script(s) => {
            assert_eq!(s.kind, ScriptKind::Exec);
            assert_eq!(s.kernel, "k");
            assert_eq!(s.code, "print(1)\n");
        },
        _ => panic!("expected a script"),
    }
    assert!(st.reports.is_empty());
}

#[test]
fn lua_block_without_delimiter_is_reported() {
    let (st, _) = parse_document(":lua\nprint(1)\n");
    assert_eq!(st.reports[0].code, ReportCode::UnterminatedLua);
}

#[test]
fn inline_lua_kinds() {
    let (st, _) = parse_document("a {:lua' \"x\":} b {:lua_post[kernel=p]! y:}");
    let f = flat(&st.doc.content);
    let scripts: Vec<_> = f
        .iter()
        .filter_map(|e| match e {
            Element::Script(s) => Some((s.kind, s.kernel.clone(), s.code.clone())),
            _ => None,
        })
        .collect();
    assert_eq!(scripts, vec![(ScriptKind::EvalText, "main".to_string(), "\"x\"".to_string())]);
    let post: Vec<_> = f
        .iter()
        .filter_map(|e| match e {
            Element::LuaPostProcess(p) => Some((p.eval_kind, p.kernel.clone(), p.code.clone())),
            _ => None,
        })
        .collect();
    assert_eq!(post, vec![(LuaEvalKind::StringParse, "p".to_string(), "y".to_string())]);
}

#[test]
fn inline_lua_unterminated_is_reported() {
    let (st, _) = parse_document("{:lua never closed");
    assert_eq!(st.reports[0].code, ReportCode::UnterminatedInlineLua);
}
