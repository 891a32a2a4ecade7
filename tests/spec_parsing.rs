use ripsaw::measurements::{determine_dimensions_from_spec, get_from_spec_token, Units};
use ripsaw::{FractionalValue, Lumber, LumberError};

fn value(whole: u32, millionths: u32) -> FractionalValue {
    FractionalValue::new(whole, millionths)
}

fn whole(w: u32) -> FractionalValue {
    FractionalValue::from_whole(w)
}

#[test]
fn it_should_retrieve_feet_from_spec_token_specifying_feet() {
    let spec_token = "8'";
    let result = get_from_spec_token(&spec_token, Units::Feet).unwrap();

    assert_eq!(result, whole(8));
}

#[test]
fn it_should_retrieve_feet_from_spec_token_specifying_nothing() {
    let spec_token = "8";
    let result = get_from_spec_token(&spec_token, Units::Feet).unwrap();

    assert_eq!(result, whole(8));
}

#[test]
fn it_should_retrieve_feet_from_spec_token_specifying_inches() {
    let spec_token = "12\"";
    let result = get_from_spec_token(&spec_token, Units::Feet).unwrap();

    assert_eq!(result, whole(1));
}

#[test]
fn it_should_retrieve_inches_from_spec_token_specifying_inches() {
    let spec_token = "10\"";
    let result = get_from_spec_token(&spec_token, Units::Inches).unwrap();

    assert_eq!(result, whole(10));
}

#[test]
fn it_should_retrieve_inches_from_spec_token_specifying_nothing() {
    let spec_token = "8";
    let result = get_from_spec_token(&spec_token, Units::Inches).unwrap();

    assert_eq!(result, whole(8));
}

#[test]
fn it_should_retrieve_inches_from_spec_token_specifying_feet() {
    let spec_token = "10\'";
    let result = get_from_spec_token(&spec_token, Units::Inches).unwrap();

    assert_eq!(result, whole(120));
}

#[test]
fn an_inch_token_wanted_in_feet_rounds_down_to_the_millionth() {
    assert_eq!(get_from_spec_token("10\"", Units::Feet), Ok(value(0, 833_333)));
}

#[test]
fn a_token_with_white_space_and_fraction() {
    assert_eq!(get_from_spec_token("  1.5\" \n", Units::Inches), Ok(value(1, 500_000)));
    assert_eq!(get_from_spec_token(".334", Units::Inches), Ok(value(0, 334_000)));
    assert_eq!(get_from_spec_token("1.2500001", Units::Inches), Ok(value(1, 250_000)));
}

#[test]
fn a_token_that_is_no_number_is_a_parse_error() {
    assert_eq!(get_from_spec_token("eight", Units::Feet), Err(LumberError::Parse));
    assert_eq!(get_from_spec_token("", Units::Feet), Err(LumberError::Parse));
    assert_eq!(get_from_spec_token("1.2.3", Units::Feet), Err(LumberError::Parse));
    assert_eq!(get_from_spec_token("'", Units::Feet), Err(LumberError::Parse));
}

#[test]
fn a_spec_gives_width_height_and_length() {
    assert_eq!(determine_dimensions_from_spec("2x4x8"), Ok((whole(2), whole(4), whole(8))));
    assert_eq!(determine_dimensions_from_spec("2\"X4\"x96\"\n"), Ok((whole(2), whole(4), whole(8))));
    assert_eq!(determine_dimensions_from_spec("1'x6x8x9"), Ok((whole(12), whole(6), whole(8))));
}

#[test]
fn a_spec_short_of_three_dimensions_is_a_parse_error() {
    assert_eq!(determine_dimensions_from_spec("2x4"), Err(LumberError::Parse));
    assert_eq!(determine_dimensions_from_spec(""), Err(LumberError::Parse));
    assert_eq!(determine_dimensions_from_spec("2x4xq"), Err(LumberError::Parse));
}

#[test]
fn a_board_from_a_spec_is_in_actual_sizes() {
    let board = Lumber::create_from_spec(&String::from("2x4x8\n")).unwrap();
    assert!(!board.is_nominal());
    assert_eq!(board.get_identifier_string(), "2x4x8");
    assert_eq!(Lumber::create_from_spec(&String::from("2x")).err(), Some(LumberError::Parse));
}

#[test]
fn decimal_text_reads_and_writes() {
    assert_eq!(FractionalValue::parse("1.25"), FractionalValue::parse("1.250"));
    assert_ne!(FractionalValue::parse("1.25"), FractionalValue::parse("1.26"));
    assert_eq!(FractionalValue::parse("5."), Some(whole(5)));
    assert_eq!(FractionalValue::parse("-1"), None);
    assert_eq!(FractionalValue::parse("1000001"), None);
    assert_eq!(FractionalValue::parse("1000000"), Some(whole(1_000_000)));
    assert_eq!(value(6, 220_000).to_text(), "6.22");
    assert_eq!(value(6, 220_000).whole_part(), 6);
    assert_eq!(value(6, 220_000).fractional_part(), 220_000);
}
