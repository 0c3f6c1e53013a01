use svg2gcode::number::Number;
use svg2gcode::path_data::{parse_svg_path_data, trim_space_and_comma, PathCommand};
use svg2gcode::transform::{
    parse_transform_list, transform_operation, Transform, TransformError, TransformOp,
};
use svg2gcode::view_box::{parse_view_box, ViewBoxError};

fn value(n: &Number) -> f64 {
    n.as_str().parse::<f64>().unwrap()
}

fn values(ns: &[Number]) -> Vec<f64> {
    ns.iter().map(value).collect()
}

/// A path command as its letter and numeric values.
fn command(c: &PathCommand) -> (char, Vec<f64>) {
    (c.command, values(&c.parameters))
}

fn transform(t: &Transform) -> (String, Vec<f64>) {
    (t.name.clone(), values(&t.parameters))
}

#[test]
fn test_parse_view_box() {
    assert!(parse_view_box("+").is_err());
    assert!(parse_view_box("-").is_err());
    assert!(parse_view_box("").is_err());
    let vb = parse_view_box("0 0 25.4 25.4").unwrap();
    assert_eq!(
        (value(&vb.min_x), value(&vb.min_y), value(&vb.width), value(&vb.height)),
        (0.0, 0.0, 25.4, 25.4)
    );
    let vb = parse_view_box("1 2 3 4").unwrap();
    assert_eq!(
        (value(&vb.min_x), value(&vb.min_y), value(&vb.width), value(&vb.height)),
        (1.0, 2.0, 3.0, 4.0)
    );
    // Separator grammar is optional comma + *required* whitespace, so
    // "1,2" (comma with no following space) is invalid, but "1, 2" is.
    let vb = parse_view_box("1, 2 3, 4").unwrap();
    assert_eq!(
        (value(&vb.min_x), value(&vb.min_y), value(&vb.width), value(&vb.height)),
        (1.0, 2.0, 3.0, 4.0)
    );
    assert!(parse_view_box("1,2 3,4").is_err());
}

#[test]
fn view_box_error_payloads() {
    assert_eq!(parse_view_box("1,2 3,4"), Err(ViewBoxError(",2 3,4".to_string())));
    assert_eq!(parse_view_box("1 2 3 4 5"), Err(ViewBoxError("1 2 3 4 5".to_string())));
    assert_eq!(parse_view_box("1 2 x 4"), Err(ViewBoxError("x 4".to_string())));
    assert_eq!(parse_view_box("1 2 3"), Err(ViewBoxError(String::new())));
}

#[test]
fn test_parse_svg_path_data() {
    assert_eq!(
        parse_svg_path_data("M 0,1 A 2,3").iter().map(command).collect::<Vec<_>>(),
        vec![('M', vec![0.0, 1.0]), ('A', vec![2.0, 3.0])]
    );
    assert!(parse_svg_path_data("+").is_empty());
    assert_eq!(
        parse_svg_path_data("M1,2").iter().map(command).collect::<Vec<_>>(),
        vec![('M', vec![1.0, 2.0])]
    );
    assert_eq!(
        parse_svg_path_data("M 0,0 25.4,25.4").iter().map(command).collect::<Vec<_>>(),
        vec![('M', vec![0.0, 0.0, 25.4, 25.4])]
    );
}

#[test]
fn path_data_skips_unknown_letters_and_keeps_order() {
    let cmds = parse_svg_path_data(" x M1 2 q 3,4 5 6 z Z");
    assert_eq!(
        cmds.iter().map(command).collect::<Vec<_>>(),
        vec![('M', vec![1.0, 2.0]), ('q', vec![3.0, 4.0, 5.0, 6.0]), ('z', vec![]), ('Z', vec![])]
    );
}

#[test]
fn path_command_segments() {
    let cmds = parse_svg_path_data("M 0,0 1,1 2,2 3");
    let segs = cmds[0].segments();
    assert_eq!(
        segs.iter().map(command).collect::<Vec<_>>(),
        vec![('M', vec![0.0, 0.0]), ('L', vec![1.0, 1.0]), ('L', vec![2.0, 2.0])]
    );
    let cmds = parse_svg_path_data("m 1 2 3 4 a 1 2 3 4 5 6 7 8 z 9");
    assert_eq!(
        cmds[0].segments().iter().map(command).collect::<Vec<_>>(),
        vec![('m', vec![1.0, 2.0]), ('l', vec![3.0, 4.0])]
    );
    assert_eq!(
        cmds[1].segments().iter().map(command).collect::<Vec<_>>(),
        vec![('a', vec![1.0, 2.0, 3.0, 4.0, 5.0, 6.0, 7.0])]
    );
    assert_eq!(cmds[2].segments().iter().map(command).collect::<Vec<_>>(), vec![('z', vec![])]);
    let cmds = parse_svg_path_data("M 5");
    assert!(cmds[0].segments().is_empty());
}

#[test]
fn trim_space_and_comma_strips_leading_separators() {
    let chars = |s: &str| s.chars().collect::<Vec<char>>();
    assert_eq!(trim_space_and_comma(&chars(" , ,  x \u{A0}")), &chars("x")[..]);
    assert_eq!(trim_space_and_comma(&chars("x ,")), &chars("x ,")[..]);
    assert!(trim_space_and_comma(&chars(", , ")).is_empty());
}

#[test]
fn test_parse_transform_list() {
    assert_eq!(
        parse_transform_list("scale(0.25,0.26), translate(15,16)")
            .unwrap()
            .iter()
            .map(transform)
            .collect::<Vec<_>>(),
        vec![
            ("translate".to_string(), vec![15.0, 16.0]),
            ("scale".to_string(), vec![0.25, 0.26]),
        ]
    );
    assert!(parse_transform_list("scale(0.25,0.26), translate(15,16), --").is_err());
    assert!(parse_transform_list("scale(0.25,---)").is_err());
    assert!(parse_transform_list("").unwrap().is_empty());
}

#[test]
fn transform_list_error_payloads() {
    assert_eq!(
        parse_transform_list("scale(1), translate(15,16), --").unwrap_err(),
        TransformError::IncompleteList("--".to_string())
    );
    assert_eq!(
        parse_transform_list("scale(0.25,---)").unwrap_err(),
        TransformError::IncompleteParameters("0.25,---".to_string())
    );
    assert_eq!(
        parse_transform_list("rotate(45").unwrap_err(),
        TransformError::IncompleteList("rotate(45".to_string())
    );
}

#[test]
fn transform_list_is_rightmost_first() {
    let ts = parse_transform_list("translate(1) rotate(2 3 4) ,skewX(5)").unwrap();
    assert_eq!(
        ts.iter().map(transform).collect::<Vec<_>>(),
        vec![
            ("skewX".to_string(), vec![5.0]),
            ("rotate".to_string(), vec![2.0, 3.0, 4.0]),
            ("translate".to_string(), vec![1.0]),
        ]
    );
}

fn op(name: &str, params: &str) -> TransformOp<f64> {
    let list = parse_transform_list(&format!("{name}({params})")).unwrap();
    transform_operation(&list[0].name, &values(&list[0].parameters))
}

#[test]
fn transform_operations() {
    assert_eq!(op("translate", "2"), TransformOp::Translate { dx: 2.0, dy: None });
    assert_eq!(op("scale", "2 3"), TransformOp::Scale { sx: 2.0, sy: Some(3.0) });
    assert_eq!(op("scale", "2"), TransformOp::Scale { sx: 2.0, sy: None });
    assert_eq!(
        op("rotate", "90 2 0"),
        TransformOp::Rotate { angle: 90.0, center: Some((2.0, 0.0)) }
    );
    assert_eq!(op("rotate", "90 2"), TransformOp::Rotate { angle: 90.0, center: None });
    assert_eq!(
        op("matrix", "1 2 3 4 5 6"),
        TransformOp::Matrix { a: 1.0, b: 2.0, c: 3.0, d: 4.0, e: 5.0, f: 6.0 }
    );
    assert_eq!(op("matrix", "1 2 3 4 5"), TransformOp::Identity);
    assert_eq!(op("skewX", ""), TransformOp::Identity);
    assert_eq!(op("skewY", "30"), TransformOp::SkewY { angle: 30.0 });
    assert_eq!(op("skewX", "30"), TransformOp::SkewX { angle: 30.0 });
    assert_eq!(op("unknown", "1"), TransformOp::Identity);
    assert_eq!(transform_operation::<f64>("translate", &[]), TransformOp::Identity);
}
