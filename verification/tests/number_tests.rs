use svg2gcode::number::{
    must_parse_number, parse_number, parse_number_default, pop_number, scan_number, Number,
    NumberError,
};

fn value(n: &Number) -> f64 {
    n.as_str().parse::<f64>().unwrap()
}

#[test]
fn test_parse_number() {
    let cases: &[(&str, f64, bool)] = &[
        ("+", 0.0, true),
        ("-", 0.0, true),
        ("", 0.0, true),
        ("32.", 0.0, true),
        ("1e", 0.0, true),
        ("+32", 32.0, false),
        ("-32", -32.0, false),
        ("32", 32.0, false),
        ("32.5", 32.5, false),
        (".5", 0.5, false),
        ("-.5", -0.5, false),
        ("1e2", 100.0, false),
    ];

    for &(input, expect_val, expect_err) in cases {
        let result = parse_number(input);
        if expect_err {
            assert!(result.is_err(), "expected error for input {input:?}");
        } else {
            assert_eq!(result.map(|n| value(&n)), Ok(expect_val), "input {input:?}");
        }
    }
}

#[test]
fn test_pop_number() {
    let cases: &[(&str, f64, &str, bool)] = &[
        ("+", 0.0, "", true),
        ("-", 0.0, "", true),
        ("", 0.0, "", true),
        ("32.", 0.0, "", true),
        ("32).", 32.0, ").", false),
        ("1e", 0.0, "", true),
        ("+32", 32.0, "", false),
        ("-32", -32.0, "", false),
        ("32", 32.0, "", false),
        ("32.5", 32.5, "", false),
        (".5", 0.5, "", false),
        ("-.5", -0.5, "", false),
        ("1e2", 100.0, "", false),
        ("32 64", 32.0, " 64", false),
        (" 64", 64.0, "", false),
        ("32,64", 32.0, ",64", false),
        ("64", 64.0, "", false),
    ];

    for &(input, expect_val, expect_remain, expect_err) in cases {
        let result = pop_number(input);
        if expect_err {
            assert!(result.is_err(), "expected error for input {input:?}");
        } else {
            let (val, remaining) = result.unwrap_or_else(|e| panic!("input {input:?}: {e:?}"));
            assert_eq!(value(&val), expect_val, "input {input:?}");
            assert_eq!(remaining, expect_remain, "input {input:?}");
        }
    }
}

#[test]
fn parse_number_error_carries_input() {
    assert_eq!(parse_number("1.5x"), Err(NumberError::NotANumber("1.5x".to_string())));
    assert_eq!(parse_number("1.5").unwrap().as_str(), "1.5");
}

#[test]
fn pop_number_error_kinds() {
    assert_eq!(pop_number("32."), Err(NumberError::Incomplete("32.".to_string())));
    assert_eq!(pop_number("1e"), Err(NumberError::Incomplete("1e".to_string())));
    assert_eq!(pop_number("5E+"), Err(NumberError::Incomplete("5E+".to_string())));
    assert_eq!(pop_number(" x1"), Err(NumberError::NoLeadingNumber(" x1".to_string())));
    assert_eq!(pop_number(""), Err(NumberError::NoLeadingNumber(String::new())));
}

#[test]
fn pop_number_skips_ascii_space_only() {
    let (n, rest) = pop_number("\t\n\u{0B}\u{0C}\r 7 tail").unwrap();
    assert_eq!(n.as_str(), "7");
    assert_eq!(rest, " tail");
    // A non-breaking space is not one of the spaces a number may follow.
    assert!(pop_number("\u{A0}7").is_err());
}

#[test]
fn pop_number_splits_input() {
    let input = "  -1.25e-3,4";
    let (n, rest) = pop_number(input).unwrap();
    assert_eq!(format!("  {}{}", n.as_str(), rest), input);
    assert_eq!(n.as_str(), "-1.25e-3");
    assert_eq!(rest, ",4");
    // the popped token parses back as the same number
    assert_eq!(parse_number(n.as_str()).unwrap().as_str(), n.as_str());
}

#[test]
fn scan_number_takes_longest_prefix() {
    let chars = |s: &str| s.chars().collect::<Vec<char>>();
    assert_eq!(scan_number(&chars("12.5e3x")), Some(6));
    assert_eq!(scan_number(&chars("1.")), Some(1));
    assert_eq!(scan_number(&chars("1e+")), Some(1));
    assert_eq!(scan_number(&chars("-.5.5")), Some(3));
    assert_eq!(scan_number(&chars("+.e1")), None);
    assert_eq!(scan_number(&chars("")), None);
}

#[test]
fn must_parse_and_default() {
    assert_eq!(must_parse_number("4.5").as_str(), "4.5");
    let default = parse_number("9").unwrap();
    assert_eq!(parse_number_default("abc", default).as_str(), "9");
    let default = parse_number("9").unwrap();
    assert_eq!(parse_number_default("3", default).as_str(), "3");
}

#[test]
fn whole_token_pops_whole() {
    for token in ["0", "-1.25", "+.5", "3e-2", "12E7"] {
        assert!(parse_number(token).is_ok());
        let (n, rest) = pop_number(token).unwrap();
        assert_eq!(n.as_str(), token);
        assert_eq!(rest, "");
    }
}
