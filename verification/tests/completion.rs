use nml::completion::{LatexCompletion, ListCompletion, LuaCompletion, ReferenceCompletion};

#[test]
fn completion_snippets_depend_on_the_trigger() {
    let r = ReferenceCompletion {};
    assert_eq!(r.static_items(false)[0].insert_text, "&{${1:REFNAME}}");
    assert_eq!(r.static_items(true)[1].insert_text, "{${1:REFNAME}}[${2:DISPLAY}]");
    let l = LatexCompletion {};
    assert_eq!(l.static_items(false)[1].insert_text, "$|${1:LATEX}|$");
    assert_eq!(LuaCompletion {}.static_items(true)[0].insert_text, "lua\n${1:CONTENT}\nEOF");
    assert_eq!(ListCompletion {}.static_items()[1].label, "-");
}

#[test]
fn reference_documentation() {
    let d = ReferenceCompletion::get_documentation("n", "doc#n", "a.nml", 3, 12, "section");
    assert_eq!(
        d,
        "Reference `n`\n\nFull name: [doc#n]()\n\n# Definition\n\n * **Defined in**: [a.nml]() (3..12)\n * **Type**: `section`"
    );
}
