use nml::document::{ElemKind, Element, ReportCode};
use nml::elements::latex::{format_latex, with_caption, TexKind};
use nml::parser::parse_document;

fn latex_elements(src: &str) -> Vec<(bool, TexKind, String, String, Option<String>)> {
    let (st, _) = parse_document(src);
    let mut out = Vec::new();
    for e in &st.doc.content {
        let inner: Vec<&Element> = match e {
            Element::Paragraph(p) => p.content.iter().collect(),
            other => vec![other],
        };
        for x in inner {
            if let Element::Latex(l) = x {
                out.push((l.mathmode, l.kind, l.env.clone(), l.tex.clone(), l.caption.clone()));
            }
        }
    }
    out
}

#[test]
fn latex_math_is_inline() {
    let l = latex_elements("Sum: $1+1=2$.");
    assert_eq!(l, vec![(true, TexKind::Inline, "main".to_string(), "1+1=2".to_string(), None)]);
}

#[test]
fn latex_normal_is_block_with_properties() {
    let l = latex_elements("$|[env=custom, caption=Cap] \\LaTeX |$");
    assert_eq!(
        l,
        vec![(false, TexKind::Block, "custom".to_string(), "\\LaTeX".to_string(), Some("Cap".to_string()))]
    );
    let k = latex_elements("$[kind=block]x$");
    assert_eq!(k[0].1, TexKind::Block);
}

#[test]
fn latex_block_stands_outside_paragraphs() {
    let (st, _) = parse_document("a $|x|$ b");
    assert!(matches!(st.doc.content[1], Element::Latex(_)));
    assert_eq!(st.doc.content[1].kind(), ElemKind::Block);
}

#[test]
fn latex_unterminated_and_empty_are_reported() {
    let (st, _) = parse_document("text $|never closed");
    assert_eq!(st.reports[0].code, ReportCode::UnterminatedTex);
    let (st, _) = parse_document("$ $");
    assert_eq!(st.reports[0].code, ReportCode::EmptyTex);
    assert_eq!(latex_elements("$ $").len(), 1);
    let (st, _) = parse_document("$[kind=wide]x$");
    assert_eq!(st.reports[0].code, ReportCode::InvalidTexKind);
}

#[test]
fn latex_document_and_cache_key() {
    let f = format_latex("12", "\\usepackage{x}", "$x$");
    assert_eq!(
        f.source,
        "\\documentclass[preview]{standalone}\n\\usepackage{x}\n\\begin{document}\n\\begin{preview}\n$x$\n\\end{preview}\n\\end{document}"
    );
    let key = f.key();
    assert_eq!(key.len(), 128);
    assert!(key.chars().all(|c| c.is_ascii_hexdigit() && !c.is_ascii_uppercase()));
    assert_ne!(key, f.source);
    assert_ne!(key, format_latex("12", "", "$y$").key());
    assert_eq!(key, format_latex("14", "\\usepackage{x}", "$x$").key());
}

#[test]
fn latex_caption_goes_into_the_svg_title() {
    let cap = "a<b".to_string();
    assert_eq!(with_caption("<svg x>body</svg>", Some(&cap)), "<svg x><title>a&lt;b</title>body</svg>");
    assert_eq!(with_caption("<svg>", None), "<svg>");
    assert_eq!(with_caption("no tag", Some(&cap)), "no tag");
}
