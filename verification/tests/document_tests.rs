use svg2gcode::document::{
    height, name_to_key, parse_svg_document, view_box, width, DocumentError, XmlNodeKind,
};

#[test]
fn test_parse_svg_document() {
    let cases: &[(&str, bool)] = &[
        ("</svg>", true),
        ("<svg foo='bar'></svg>", false),
        (
            "<?xml version='1.0' encoding='UTF-8'?>\n<!-- comment --><svg foo='bar'></svg>\n\n<?nope?><!-- comment -->",
            false,
        ),
        ("<svg><g>\n</g></svg>", false),
        ("<svg></bar></svg>", true),
        ("<foo:svg></foo:svg>", true),
        ("<foo></foo>", true),
        ("", true),
    ];

    for &(input, expect_err) in cases {
        let result = parse_svg_document(input);
        assert_eq!(result.is_err(), expect_err, "input {input:?}: {result:?}");
    }
}

#[test]
fn test_width_height_view_box() {
    let text = "<svg width=\"12cm\" height=\"5.25cm\" viewBox=\"0 0 1200 525\"></svg>";
    let doc = parse_svg_document(text).unwrap();
    let root = doc.root_element().unwrap();
    assert_eq!(width(&doc, root), Some("12cm"));
    assert_eq!(height(&doc, root), Some("5.25cm"));
    assert_eq!(view_box(&doc, root), Some("0 0 1200 525"));
}

#[test]
fn test_name_to_key() {
    assert_eq!(name_to_key(None, "desc"), "desc");
    assert_eq!(
        name_to_key(Some("http://www.w3.org/2000/svg"), "desc"),
        "http://www.w3.org/2000/svg:desc"
    );
}

#[test]
fn name_to_key_with_empty_namespace() {
    assert_eq!(name_to_key(Some(""), "g"), "g");
}

#[test]
fn parse_svg_document_errors() {
    assert_eq!(parse_svg_document("  \n\t").unwrap_err(), DocumentError::Empty);
    assert!(matches!(parse_svg_document("<svg>").unwrap_err(), DocumentError::Xml(_)));
    assert_eq!(
        parse_svg_document("<foo></foo>").unwrap_err(),
        DocumentError::UnexpectedRootElement("foo".to_string())
    );
    assert_eq!(
        parse_svg_document("<svg xmlns='http://example.com/ns'></svg>").unwrap_err(),
        DocumentError::UnexpectedNamespace("http://example.com/ns".to_string())
    );
    assert!(parse_svg_document("<svg xmlns='http://www.w3.org/2000/svg'></svg>").is_ok());
}

#[test]
fn parse_svg_document_builds_tree() {
    let doc = parse_svg_document(
        "<!-- c --><svg xmlns='http://www.w3.org/2000/svg' id='top'><g transform='scale(2)'>hi</g></svg>",
    )
    .unwrap();
    // root node, comment, svg, g, text
    assert_eq!(doc.nodes.len(), 5);
    assert_eq!(doc.nodes[0].kind, XmlNodeKind::Root);
    assert_eq!(doc.nodes[1].kind, XmlNodeKind::Comment);
    assert_eq!(doc.nodes[1].text.as_deref(), Some(" c "));
    let root = doc.root_element().unwrap();
    assert_eq!(root, 2);
    assert_eq!(doc.nodes[root].attribute("id"), Some("top"));
    assert_eq!(doc.nodes[3].parent, Some(2));
    assert_eq!(doc.nodes[3].name, "g");
    assert_eq!(doc.nodes[3].attribute("transform"), Some("scale(2)"));
    assert_eq!(doc.nodes[3].text.as_deref(), Some("hi"));
    assert_eq!(doc.nodes[4].kind, XmlNodeKind::Text);
    assert_eq!(doc.nodes[4].parent, Some(3));
    assert_eq!(
        doc.nodes[3].tag_key(),
        "http://www.w3.org/2000/svg:g".to_string()
    );
}

#[test]
fn parse_svg_document_keeps_desc_text_and_attributes() {
    let doc = parse_svg_document(
        "<svg xmlns='http://www.w3.org/2000/svg' width='10mm' foo='x'><desc>carve-depth: 1</desc><circle cx='1' cy='2' r='3'/></svg>",
    )
    .unwrap();
    // root node, svg, desc, its text, circle
    assert_eq!(doc.nodes.len(), 5);
    assert_eq!(doc.nodes[0].parent, None);
    assert_eq!(doc.nodes[1].attribute("width"), Some("10mm"));
    // only the attributes the library reads are kept
    assert_eq!(doc.nodes[1].attribute("foo"), None);
    assert_eq!(doc.nodes[2].name, "desc");
    assert_eq!(doc.nodes[2].text.as_deref(), Some("carve-depth: 1"));
    assert_eq!(doc.nodes[3].kind, XmlNodeKind::Text);
    assert_eq!(doc.nodes[3].parent, Some(2));
    assert_eq!(doc.nodes[4].attribute("cx"), Some("1"));
    assert_eq!(doc.nodes[4].attribute("cy"), Some("2"));
    assert_eq!(doc.nodes[4].parent, Some(1));
    assert_eq!(
        doc.nodes[1].namespace.as_deref(),
        Some("http://www.w3.org/2000/svg")
    );
}
