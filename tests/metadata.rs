use svg_metadata::{ErrorKind, Height, Metadata, Number, Unit, ViewBox, Width};

fn view_box(min_x: Number, min_y: Number, width: Number, height: Number) -> ViewBox {
    ViewBox { min_x, min_y, width, height }
}

fn whole(n: i64) -> Number {
    Number::new(n, 0)
}

#[test]
fn test_view_box_separators() {
    // Values can be separated by whitespace and/or a comma
    let cases = vec!["0 1 99 100", "0, 1, 99, 100", "0, 1  99 100"];
    for case in cases {
        assert_eq!(
            ViewBox::try_from(case).unwrap(),
            view_box(whole(0), whole(1), whole(99), whole(100))
        );
    }
}

#[test]
fn test_view_box_negative() {
    assert_eq!(
        ViewBox::try_from("-0, 1, -99.00001, -100.3").unwrap(),
        view_box(whole(0), whole(1), Number::new(-9900001, -5), Number::new(-1003, -1))
    );
}

#[test]
fn test_width() {
    let tests = vec![
        ("100em", Width { width: whole(100), unit: Unit::Em }),
        ("100", Width { width: whole(100), unit: Unit::Em }),
        ("-10.0px", Width { width: whole(-10), unit: Unit::Px }),
    ];
    for (input, expected) in tests {
        assert_eq!(Width::try_from(input).unwrap(), expected);
    }
}

#[test]
fn test_height() {
    let tests = vec![
        ("100em", Height { height: whole(100), unit: Unit::Em }),
        ("100", Height { height: whole(100), unit: Unit::Em }),
        ("-10.0px", Height { height: whole(-10), unit: Unit::Px }),
    ];
    for (input, expected) in tests {
        assert_eq!(Height::try_from(input).unwrap(), expected);
    }
}

#[test]
fn test_width_height_percent() {
    let svg = r#"<svg viewBox="0 1 99 100" width="100%" height="100%" xmlns="http://www.w3.org/2000/svg">
  <rect x="0" y="0" width="100%" height="100%"/>
</svg>"#;

    let meta = Metadata::parse(svg).unwrap();
    assert_eq!(meta.width(), Some(whole(99)));
    assert_eq!(meta.height(), Some(whole(100)));

    let svg = r#"<svg viewBox="0 1 80 200" width="50%" height="20%" xmlns="http://www.w3.org/2000/svg"></svg>"#;

    let meta = Metadata::parse(svg).unwrap();
    assert_eq!(meta.width(), Some(whole(40)));
    assert_eq!(meta.height(), Some(whole(40)));
}

#[test]
fn test_metadata_unit() {
    let svg = r#"<svg viewBox="0 1 99 100" width="2em" height="10cm" xmlns="http://www.w3.org/2000/svg">
  <rect x="0" y="0" width="100%" height="100%"/>
</svg>"#;

    let meta = Metadata::parse(svg).unwrap();
    assert_eq!(meta.view_box, Some(view_box(whole(0), whole(1), whole(99), whole(100))));
    assert_eq!(meta.view_box(), Some(view_box(whole(0), whole(1), whole(99), whole(100))));
    assert_eq!(meta.width, Some(Width { width: whole(2), unit: Unit::Em }));
    assert_eq!(meta.height, Some(Height { height: whole(10), unit: Unit::Cm }));
}

#[test]
fn view_box_element_count_is_reported() {
    let e = ViewBox::try_from("0,1,99,100").unwrap_err();
    assert_eq!(e.kind, ErrorKind::InvalidViewBox);
    assert_eq!(e.details, "Invalid view_box: Expected four elements, got 1");
    let e = ViewBox::try_from("0 1 99").unwrap_err();
    assert_eq!(e.details, "Invalid view_box: Expected four elements, got 3");
    let e = ViewBox::try_from("0 1 99 100 7").unwrap_err();
    assert_eq!(e.details, "Invalid view_box: Expected four elements, got 5");
    let e = ViewBox::try_from(" 0 1 99 100 7 8 9 10 11 12 13").unwrap_err();
    assert_eq!(e.details, "Invalid view_box: Expected four elements, got 12");
    let e = ViewBox::try_from("").unwrap_err();
    assert_eq!(e.details, "Invalid view_box: Expected four elements, got 1");
}

#[test]
fn view_box_space_before_comma_makes_an_empty_piece() {
    let e = ViewBox::try_from("0 , 1 99").unwrap_err();
    assert_eq!(e.details, "Cannot convert string to float");
    let e = ViewBox::try_from("0 , 1 99 100").unwrap_err();
    assert_eq!(e.details, "Invalid view_box: Expected four elements, got 5");
    assert_eq!(e.kind, ErrorKind::InvalidViewBox);
}

#[test]
fn view_box_non_numeric_element() {
    let e = ViewBox::try_from("0 1 a 100").unwrap_err();
    assert_eq!(e.kind, ErrorKind::InvalidViewBox);
    assert_eq!(e.details, "Cannot convert string to float");
    assert!(ViewBox::try_from("0 1 99 100 ").is_err());
    assert!(ViewBox::try_from("0 1 1e3 100").is_err());
}

#[test]
fn view_box_other_whitespace_and_forms() {
    assert_eq!(
        ViewBox::try_from("+.5,\t1.\n\n-0.250\u{a0}7").unwrap(),
        view_box(Number::new(5, -1), whole(1), Number::new(-25, -2), whole(7))
    );
}

#[test]
fn length_case_insensitive_units() {
    assert_eq!(Width::try_from("100EM").unwrap(), Width::try_from("100em").unwrap());
    assert_eq!(Width::try_from("3Px").unwrap(), Width { width: whole(3), unit: Unit::Px });
    assert_eq!(Height::try_from("1.5In").unwrap(), Height { height: Number::new(15, -1), unit: Unit::In });
    assert_eq!(Width::try_from("7mm").unwrap().unit, Unit::Mm);
    assert_eq!(Width::try_from("7pt").unwrap().unit, Unit::Pt);
    assert_eq!(Width::try_from("7pc").unwrap().unit, Unit::Pc);
    assert_eq!(Width::try_from("7ex").unwrap().unit, Unit::Ex);
}

#[test]
fn length_percent_and_suffixes() {
    assert_eq!(Width::try_from("50%").unwrap(), Width { width: whole(50), unit: Unit::Percent });
    assert_eq!(Width::try_from("50% ").unwrap().unit, Unit::Percent);
    assert_eq!(Width::try_from("12pxx").unwrap(), Width { width: whole(12), unit: Unit::Px });
    assert_eq!(Width::try_from("+4.").unwrap(), Width { width: whole(4), unit: Unit::Em });
}

#[test]
fn length_errors() {
    let e = Width::try_from("abc").unwrap_err();
    assert_eq!(e.kind, ErrorKind::InvalidLength);
    assert_eq!(e.details, "Cannot read dimensions");
    let e = Height::try_from(".5em").unwrap_err();
    assert_eq!(e.details, "Cannot read dimensions");
    let e = Width::try_from("10zz").unwrap_err();
    assert_eq!(e.kind, ErrorKind::InvalidLength);
    assert_eq!(e.details, "Unknown unit: zz");
    let e = Width::try_from("10 px").unwrap_err();
    assert_eq!(e.details, "Unknown unit:  p");
    let e = Width::try_from("10e5").unwrap_err();
    assert_eq!(e.details, "Unknown unit: e");
}

#[test]
fn unit_resolution() {
    assert_eq!(Unit::try_from("%").unwrap(), Unit::Percent);
    assert_eq!(Unit::try_from("cM").unwrap(), Unit::Cm);
    let e = Unit::try_from("zz").unwrap_err();
    assert_eq!(e.kind, ErrorKind::InvalidLength);
    assert_eq!(e.details, "Unknown unit: zz");
    assert!(Unit::try_from("").is_err());
    assert!(Unit::try_from("emm").is_err());
}

#[test]
fn numbers_are_canonical() {
    assert_eq!(Number::new(990, -1), whole(99));
    assert_eq!(Number::new(0, 7), whole(0));
    assert_eq!(Number::new(1200, 0).coefficient(), 12);
    assert_eq!(Number::new(1200, 0).exponent(), 2);
    assert_eq!(Number::new(-5, -1).coefficient(), -5);
    assert_eq!(Number::new(i64::MIN, 0).coefficient(), i64::MIN as i128 / 1);
    let chars: Vec<char> = "-0012.3400".chars().collect();
    assert_eq!(Number::from_chars(&chars), Some(Number::new(-1234, -2)));
    let chars: Vec<char> = "1.".chars().collect();
    assert_eq!(Number::from_chars(&chars), Some(whole(1)));
    let chars: Vec<char> = ".".chars().collect();
    assert_eq!(Number::from_chars(&chars), None);
    let chars: Vec<char> = "-".chars().collect();
    assert_eq!(Number::from_chars(&chars), None);
    let chars: Vec<char> = "1000000000000000000000000000000000000".chars().collect();
    assert_eq!(Number::from_chars(&chars), Some(Number::new(1, 36)));
}

#[test]
fn percent_of_is_exact() {
    assert_eq!(whole(50).percent_of(&whole(80)), whole(40));
    assert_eq!(Number::new(125, -1).percent_of(&whole(-8)), whole(-1));
    assert_eq!(whole(3).percent_of(&whole(7)), Number::new(21, -2));
}

#[test]
fn parse_twice_gives_equal_metadata() {
    let svg = r#"<svg viewBox="0 1 99 100" width="30%" height="2in"></svg>"#;
    assert_eq!(Metadata::parse(svg).unwrap(), Metadata::parse(svg).unwrap());
}

#[test]
fn scenario_view_box_only() {
    let svg = r#"<svg viewBox="0 1 99 100" xmlns="http://www.w3.org/2000/svg"><g/></svg>"#;
    let meta = Metadata::parse(svg).unwrap();
    assert_eq!(
        meta,
        Metadata { view_box: Some(view_box(whole(0), whole(1), whole(99), whole(100))), width: None, height: None }
    );
    assert_eq!(meta.width(), None);
    assert_eq!(meta.height(), None);
}

#[test]
fn scenario_units_pass_through() {
    let svg = r#"<svg viewBox="0 1 99 100" width="2em" height="10cm" xmlns="http://www.w3.org/2000/svg"></svg>"#;
    let meta = Metadata::parse(svg).unwrap();
    assert_eq!(meta.width, Some(Width { width: whole(2), unit: Unit::Em }));
    assert_eq!(meta.height, Some(Height { height: whole(10), unit: Unit::Cm }));
    assert_eq!(meta.width(), Some(whole(2)));
    assert_eq!(meta.height(), Some(whole(10)));
}

#[test]
fn scenario_no_attributes() {
    let svg = r#"<svg xmlns="http://www.w3.org/2000/svg"><rect width="5"/></svg>"#;
    let meta = Metadata::parse(svg).unwrap();
    assert_eq!(meta, Metadata { view_box: None, width: None, height: None });
}

#[test]
fn percent_without_view_box_is_the_raw_magnitude() {
    let svg = r#"<svg width="100%" height="25%"></svg>"#;
    let meta = Metadata::parse(svg).unwrap();
    assert_eq!(meta.width(), Some(whole(100)));
    assert_eq!(meta.height(), Some(whole(25)));
}

#[test]
fn malformed_attributes_are_left_out() {
    let svg = r#"<svg viewBox="0,1,99,100" width="wide" height="3px"></svg>"#;
    let meta = Metadata::parse(svg).unwrap();
    assert_eq!(meta.view_box, None);
    assert_eq!(meta.width, None);
    assert_eq!(meta.height, Some(Height { height: whole(3), unit: Unit::Px }));
}

#[test]
fn malformed_document_fails() {
    let e = Metadata::parse("<svg viewBox=\"0 1 99 100\">").unwrap_err();
    assert_eq!(e.kind, ErrorKind::MalformedDocument);
    assert!(!e.details.is_empty());
    assert_eq!(Metadata::parse("").unwrap_err().kind, ErrorKind::MalformedDocument);
}

#[test]
fn doctype_is_tolerated() {
    let svg = r#"<?xml version="1.0"?>
<!DOCTYPE svg PUBLIC "-//W3C//DTD SVG 1.1//EN" "http://www.w3.org/Graphics/SVG/1.1/DTD/svg11.dtd">
<svg width="4" viewBox="0 0 8 8"></svg>"#;
    let meta = Metadata::parse(svg).unwrap();
    assert_eq!(meta.width, Some(Width { width: whole(4), unit: Unit::Em }));
    assert_eq!(meta.view_box, Some(view_box(whole(0), whole(0), whole(8), whole(8))));
}

#[test]
fn from_attributes_reads_each_field() {
    let meta = Metadata::from_attributes(Some("1 2 3 4"), Some("10%"), None);
    assert_eq!(meta.view_box, Some(view_box(whole(1), whole(2), whole(3), whole(4))));
    assert_eq!(meta.width(), Some(Number::new(3, -1)));
    assert_eq!(meta.height, None);
}

#[test]
fn error_description() {
    let e = svg_metadata::MetadataError::new(ErrorKind::UnreadableFile, "gone");
    assert_eq!(e.description(), "gone");
    assert_eq!(e.kind, ErrorKind::UnreadableFile);
}

#[test]
fn resolvability_is_checked() {
    let big = Number::new(i64::MAX, 0).percent_of(&Number::new(i64::MAX, 0));
    assert!(!big.can_scale(&big));
    assert!(whole(50).can_scale(&whole(80)));
    let meta = Metadata {
        view_box: Some(view_box(whole(0), whole(0), big, whole(1))),
        width: Some(Width { width: big, unit: Unit::Percent }),
        height: Some(Height { height: whole(50), unit: Unit::Percent }),
    };
    assert!(!meta.resolvable());
    let parsed = Metadata::parse(r#"<svg viewBox="0 0 9223372036854775807 9" width="9223372036854775807%" height="1%"/>"#).unwrap();
    assert!(parsed.resolvable());
    assert_eq!(parsed.height(), Some(Number::new(9, -2)));
}

#[test]
fn long_literals_are_rounded() {
    assert_eq!(
        Width::try_from("123456789012345678901234567890123456789012").unwrap(),
        Width { width: Number::new(123456789012345679, 24), unit: Unit::Em }
    );
    assert_eq!(
        ViewBox::try_from("0 0 0 100000000000000000001").unwrap(),
        view_box(whole(0), whole(0), whole(0), Number::new(1, 20))
    );
    assert_eq!(
        Height::try_from("0.0000000000999999999999999999995mm").unwrap(),
        Height { height: Number::new(1, -10), unit: Unit::Mm }
    );
    assert_eq!(
        Width::try_from("-1234567890123456784999").unwrap().width,
        Number::new(-123456789012345678, 4)
    );
    assert_eq!(
        Width::try_from("000000000000000000000000012.5").unwrap().width,
        Number::new(125, -1)
    );
}
