use svg2gcode::document::{parse_svg_document, XmlDocument};
use svg2gcode::gcode_desc::{CutDepth, GCodeDesc};
use svg2gcode::length::{Length, LengthUnit};
use svg2gcode::svgx_document::{load_document, own_desc_text, LoadError};
use svg2gcode::svgx_element::{PathSource};
use svg2gcode::number::NumberError;

fn to_mm(l: &Length) -> f64 {
    let value = l.value.as_str().parse::<f64>().unwrap();
    match l.unit {
        LengthUnit::Centimeter => value * 10.0,
        LengthUnit::Inch => value * 25.4,
        LengthUnit::Point => value * 25.4 / 72.0,
        LengthUnit::Pica => value * 25.4 / 6.0,
        LengthUnit::Pixel => value * 25.4 / 96.0,
        LengthUnit::Millimeter => value,
    }
}

/// Reads the settings of a `<desc>` text (the YAML keys the library uses).
fn desc_from_yaml(text: &str) -> Option<GCodeDesc> {
    let value: serde_yaml::Value = serde_yaml::from_str(text).ok()?;
    let map = value.as_mapping()?;
    let get = |k: &str| map.get(k).map(|v| match v {
        serde_yaml::Value::String(s) => s.clone(),
        other => serde_yaml::to_string(other).unwrap().trim().to_string(),
    });
    Some(GCodeDesc {
        origin_marker: map.get("origin-marker").and_then(|v| v.as_bool()).unwrap_or(false),
        carve_depth: get("carve-depth"),
        safe_height: get("safe-height"),
    })
}

fn descs(doc: &XmlDocument) -> Vec<Option<GCodeDesc>> {
    (0..doc.nodes.len())
        .map(|i| own_desc_text(doc, i).and_then(|t| desc_from_yaml(&t)))
        .collect()
}

#[test]
fn test_get_safe_height() {
    let get = |d: &GCodeDesc, default: f64| d.get_safe_height().map(|l| to_mm(&l)).unwrap_or(default);
    let desc = GCodeDesc {
        safe_height: Some("10mm".to_string()),
        ..Default::default()
    };
    assert_eq!(get(&desc, 0.0), 10.0);

    let missing = GCodeDesc::default();
    assert_eq!(get(&missing, 7.0), 7.0);

    let invalid = GCodeDesc {
        safe_height: Some("not-a-length".to_string()),
        ..Default::default()
    };
    assert_eq!(get(&invalid, 7.0), 7.0);
}

#[test]
fn test_carve_depth() {
    let fixed = GCodeDesc {
        carve_depth: Some("10mm".to_string()),
        ..Default::default()
    };
    match fixed.carve_depth() {
        Some(CutDepth::Fixed(l)) => assert_eq!(to_mm(&l), 10.0),
        other => panic!("expected a fixed depth, got {other:?}"),
    }

    let sentinel = GCodeDesc {
        carve_depth: Some("full".to_string()),
        ..Default::default()
    };
    assert_eq!(
        sentinel.carve_depth(),
        Some(CutDepth::Sentinel("full".to_string()))
    );

    let absent = GCodeDesc::default();
    assert_eq!(absent.carve_depth(), None);
}

#[test]
fn test_effective_desc_inheritance() {
    let xml = r#"<svg xmlns="http://www.w3.org/2000/svg">
            <g><desc>carve-depth: 5mm</desc>
                <path d="M 0,0 L 1,1"/>
            </g>
        </svg>"#;
    let doc = parse_svg_document(xml).unwrap();
    let loaded = load_document("test.svg".to_string(), &doc, descs(&doc)).unwrap();
    let g = (0..doc.nodes.len()).find(|&i| doc.nodes[i].name == "g").unwrap();
    let path = (0..doc.nodes.len()).find(|&i| doc.nodes[i].name == "path").unwrap();
    assert!(loaded.gcode_descs[g].is_some());
    assert!(loaded.gcode_descs[path].is_none());
    assert_eq!(
        loaded.effective_descs[path].as_ref().unwrap().carve_depth,
        Some("5mm".to_string())
    );
}

#[test]
fn test_origin_marker_requires_circle() {
    let xml = r#"<svg xmlns="http://www.w3.org/2000/svg">
            <rect x="0" y="0" width="1" height="1"><desc>origin-marker: true</desc></rect>
        </svg>"#;
    let doc = parse_svg_document(xml).unwrap();
    let err = load_document("test.svg".to_string(), &doc, descs(&doc)).unwrap_err();
    assert!(matches!(err, LoadError::OriginMarkerNotCircle(_)));
}

#[test]
fn test_origin_marker_requires_cx_cy() {
    let xml = r#"<svg xmlns="http://www.w3.org/2000/svg">
            <circle><desc>origin-marker: true</desc></circle>
        </svg>"#;
    let doc = parse_svg_document(xml).unwrap();
    let err = load_document("test.svg".to_string(), &doc, descs(&doc)).unwrap_err();
    assert!(matches!(err, LoadError::OriginMarkerMissingAttribute("cx")));
}

#[test]
fn test_origin_marker_rejects_malformed_cx() {
    let xml = r#"<svg xmlns="http://www.w3.org/2000/svg">
            <circle cx="not-a-number" cy="20"><desc>origin-marker: true</desc></circle>
        </svg>"#;
    let doc = parse_svg_document(xml).unwrap();
    let err = load_document("test.svg".to_string(), &doc, descs(&doc)).unwrap_err();
    assert!(matches!(
        err,
        LoadError::OriginMarkerInvalidAttribute {
            attribute: "cx",
            ..
        }
    ));
}

#[test]
fn origin_marker_valid_circle_gives_origin() {
    let xml = r#"<svg xmlns="http://www.w3.org/2000/svg">
            <circle cx="10" cy="20" r="1"><desc>origin-marker: true</desc></circle>
        </svg>"#;
    let doc = parse_svg_document(xml).unwrap();
    let loaded = load_document("test.svg".to_string(), &doc, descs(&doc)).unwrap();
    let (cx, cy) = loaded.origin_marker.unwrap();
    assert_eq!((cx.as_str(), cy.as_str()), ("10", "20"));
}

#[test]
fn last_origin_marker_wins_and_cy_is_checked() {
    let xml = r#"<svg xmlns="http://www.w3.org/2000/svg">
            <circle cx="1" cy="2"><desc>origin-marker: true</desc></circle>
            <circle cx="3" cy="4x"><desc>origin-marker: true</desc></circle>
        </svg>"#;
    let doc = parse_svg_document(xml).unwrap();
    let err = load_document("test.svg".to_string(), &doc, descs(&doc)).unwrap_err();
    assert_eq!(
        err,
        LoadError::OriginMarkerInvalidAttribute {
            attribute: "cy",
            source: NumberError::NotANumber("4x".to_string())
        }
    );
    let xml = r#"<svg xmlns="http://www.w3.org/2000/svg">
            <circle cx="1"><desc>origin-marker: true</desc></circle>
        </svg>"#;
    let doc = parse_svg_document(xml).unwrap();
    let err = load_document("test.svg".to_string(), &doc, descs(&doc)).unwrap_err();
    assert_eq!(err, LoadError::OriginMarkerMissingAttribute("cy"));
}

#[test]
fn no_origin_marker_is_fine() {
    let doc = parse_svg_document("<svg></svg>").unwrap();
    let loaded = load_document("a.svg".to_string(), &doc, descs(&doc)).unwrap();
    assert!(loaded.origin_marker.is_none());
    assert_eq!(loaded.filename, "a.svg");
}

#[test]
fn own_desc_text_joins_child_texts() {
    let xml = r#"<svg xmlns="http://www.w3.org/2000/svg"><g><desc>carve-depth: <!--c-->5mm</desc><desc>x</desc></g></svg>"#;
    let doc = parse_svg_document(xml).unwrap();
    let g = (0..doc.nodes.len()).find(|&i| doc.nodes[i].name == "g").unwrap();
    assert_eq!(own_desc_text(&doc, g), Some("carve-depth: c5mm".to_string()));
    // a desc outside the SVG namespace is not the element's desc
    let doc = parse_svg_document("<svg><g><desc>a</desc></g></svg>").unwrap();
    assert_eq!(own_desc_text(&doc, 2), None);
}

#[test]
fn carve_plan_visits_elements_in_order() {
    let xml = r#"<svg xmlns="http://www.w3.org/2000/svg" transform="scale(2)">
            <desc>carve-depth: 3mm
safe-height: 5mm</desc>
            <g id="outer" transform="translate(1,2)">
                <path id="p" d="M 0,0 L 10,0"/>
                <circle cx="1" cy="2" rx="3" ry="4"/>
                <circle cx="50%" rx="1" ry="1"/>
            </g>
            <g><desc>carve-depth: full</desc><rect/></g>
        </svg>"#;
    let doc = parse_svg_document(xml).unwrap();
    let loaded = load_document("plan.svg".to_string(), &doc, descs(&doc)).unwrap();
    let plan = loaded.carve_plan(&doc);
    let names: Vec<String> = plan.iter().map(|s| doc.nodes[s.node].name.clone()).collect();
    // the desc elements are not carved
    assert_eq!(names, vec!["svg", "g", "path", "circle", "circle", "g", "rect"]);
    assert!(plan.windows(2).all(|w| w[0].node < w[1].node));
    let path = &plan[2];
    assert_eq!(path.id, "p");
    assert_eq!(path.key, "http://www.w3.org/2000/svg:path");
    let names: Vec<&str> = path.transforms.iter().map(|t| t.name.as_str()).collect();
    assert_eq!(names, vec!["translate", "scale"]);
    let job = path.job.as_ref().unwrap();
    match &job.depth {
        CutDepth::Fixed(l) => assert_eq!(to_mm(l), 3.0),
        other => panic!("unexpected depth {other:?}"),
    }
    assert_eq!(to_mm(job.safe_height.as_ref().unwrap()), 5.0);
    match job.path.as_ref().unwrap() {
        PathSource::Path(d) => assert_eq!(d, "M 0,0 L 10,0"),
        _ => panic!("expected path data"),
    }
    match plan[3].job.as_ref().unwrap().path.as_ref().unwrap() {
        PathSource::Circle(c) => assert_eq!(
            (c.cx.as_str(), c.cy.as_str(), c.rx.as_str(), c.ry.as_str()),
            ("1", "2", "3", "4")
        ),
        _ => panic!("expected a circle"),
    }
    // a percentage leaves the circle without a path
    assert!(plan[4].job.as_ref().unwrap().path.is_none());
    // a sentinel depth is left to the elements that have a path: neither the
    // group that sets it nor the rect that inherits it gets a job
    assert!(plan[5].job.is_none());
    assert!(plan[6].job.is_none());
}

#[test]
fn sentinel_depth_goes_to_leaf_paths_only() {
    let xml = r#"<svg xmlns="http://www.w3.org/2000/svg">
            <g><desc>carve-depth: full</desc><path d="M 1,1 L 2,2"/><circle cx="3" cy="4" rx="1" ry="1"/></g>
        </svg>"#;
    let doc = parse_svg_document(xml).unwrap();
    let loaded = load_document("s.svg".to_string(), &doc, descs(&doc)).unwrap();
    let plan = loaded.carve_plan(&doc);
    let names: Vec<String> = plan.iter().map(|s| doc.nodes[s.node].name.clone()).collect();
    assert_eq!(names, vec!["svg", "g", "path", "circle"]);
    assert!(plan[0].job.is_none());
    assert!(plan[1].job.is_none());
    for step in &plan[2..] {
        let job = step.job.as_ref().unwrap();
        assert_eq!(job.depth, CutDepth::Sentinel("full".to_string()));
        assert!(job.path.is_some());
    }
}

#[test]
fn fixed_depth_on_a_group_still_gives_a_job() {
    let xml = r#"<svg xmlns="http://www.w3.org/2000/svg"><g><desc>carve-depth: 2</desc></g></svg>"#;
    let doc = parse_svg_document(xml).unwrap();
    let loaded = load_document("f.svg".to_string(), &doc, descs(&doc)).unwrap();
    let plan = loaded.carve_plan(&doc);
    let job = plan[1].job.as_ref().unwrap();
    assert!(job.path.is_none());
    match &job.depth {
        CutDepth::Fixed(l) => assert_eq!(to_mm(l), 2.0),
        other => panic!("unexpected depth {other:?}"),
    }
}

#[test]
fn carve_plan_without_depth_has_no_jobs() {
    let xml = r#"<svg xmlns="http://www.w3.org/2000/svg"><path d="M 0,0 L 10,0"/></svg>"#;
    let doc = parse_svg_document(xml).unwrap();
    let loaded = load_document("t.svg".to_string(), &doc, descs(&doc)).unwrap();
    let plan = loaded.carve_plan(&doc);
    assert_eq!(plan.len(), 2);
    assert!(plan.iter().all(|s| s.job.is_none()));
}

#[test]
fn carve_plan_ignores_malformed_element_transform() {
    let xml = r#"<svg xmlns="http://www.w3.org/2000/svg" transform="scale(2)"><g transform="bogus"/></svg>"#;
    let doc = parse_svg_document(xml).unwrap();
    let loaded = load_document("t.svg".to_string(), &doc, descs(&doc)).unwrap();
    let plan = loaded.carve_plan(&doc);
    let names: Vec<&str> = plan[1].transforms.iter().map(|t| t.name.as_str()).collect();
    assert_eq!(names, vec!["scale"]);
}
