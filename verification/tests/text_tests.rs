use svg2gcode::gcode_writer::{comment_line, use_absolute_lines};
use svg2gcode::length::{parse_length_mm, Length, LengthUnit};

fn to_mm(l: &Length) -> f64 {
    let value = l.value.as_str().parse::<f64>().unwrap();
    match l.unit {
        LengthUnit::Centimeter => value * 10.0,
        LengthUnit::Inch => value * 25.4,
        LengthUnit::Point => value * 25.4 / 72.0,
        LengthUnit::Pica => value * 25.4 / 6.0,
        LengthUnit::Pixel => value * 25.4 / 96.0,
        LengthUnit::Millimeter => value,
    }
}

#[test]
fn test_parse_length_mm() {
    let cases: &[(&str, f64)] = &[
        ("10", 10.0),
        ("10mm", 10.0),
        ("1cm", 10.0),
        ("1in", 25.4),
        ("72pt", 25.4),
        ("6pc", 25.4),
        ("96px", 25.4),
    ];
    for &(input, expect) in cases {
        let got = to_mm(&parse_length_mm(input).unwrap_or_else(|e| panic!("input {input:?}: {e:?}")));
        assert!(
            (got - expect).abs() < 1e-9,
            "input {input:?}: got {got}, want {expect}"
        );
    }
}

#[test]
fn test_parse_length_mm_invalid() {
    assert!(parse_length_mm("not-a-number").is_err());
}

#[test]
fn length_units() {
    assert_eq!(parse_length_mm(" 3 px ").unwrap().unit, LengthUnit::Pixel);
    assert_eq!(parse_length_mm("3furlongs").unwrap().unit, LengthUnit::Millimeter);
    assert_eq!(parse_length_mm("3").unwrap().unit, LengthUnit::Millimeter);
    assert_eq!(parse_length_mm("2.5in").unwrap().value.as_str(), "2.5");
    assert!(parse_length_mm("3.mm").is_err());
}

#[test]
fn test_comment_escapes_newlines() {
    assert_eq!(comment_line("line one\nline two"), "; line one\\nline two\n");
}

#[test]
fn absolute_positioning_is_switched_on_once() {
    let (lines, on) = use_absolute_lines(false);
    assert_eq!(lines, vec!["G90 ; Use absolute positioning.\n".to_string()]);
    assert!(on);
    let (lines, on) = use_absolute_lines(true);
    assert!(lines.is_empty());
    assert!(on);
}
