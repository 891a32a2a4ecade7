use ripsaw::{get_conversion_chart_inches, to_actual_size_in_inches, FractionalValue, Lumber};
use ripsaw::LumberError;

fn value(whole: u32, millionths: u32) -> FractionalValue {
    FractionalValue::new(whole, millionths)
}

fn whole(w: u32) -> FractionalValue {
    FractionalValue::from_whole(w)
}

#[test]
fn a_single_1_by_2_should_be_3_4_by_1_5_inches() {
    let one_by_two_nominal = Lumber::create_nominal(whole(1), whole(2), whole(8));
    let one_by_two_actual = one_by_two_nominal.as_actual_size().unwrap();

    assert_eq!(one_by_two_actual.get_width_in_inches(), value(0, 750_000));
    assert_eq!(one_by_two_actual.get_height_in_inches(), value(1, 500_000));
    assert_eq!(one_by_two_actual.get_length_in_feet(), whole(8));
}

#[test]
fn get_nearest_nominal_size_inches_should_return_1_25_for_1_22_inches() {
    let actual = Lumber::get_nearest_nominal_size_inches(value(1, 220_000)).unwrap();

    assert_eq!(actual, value(1, 250_000));
}

#[test]
fn a_0_25_inch_by_5_32_inch_actual_size_should_convert_to_a_1_x6_nominal_size() {
    let actual_lumber_dim = Lumber::create_actual(value(0, 250_000), value(5, 320_000), value(6, 220_000));
    let nominal_board = actual_lumber_dim.as_nearest_nominal().unwrap();

    assert_eq!(nominal_board.get_width_in_inches(), whole(1));
    assert_eq!(nominal_board.get_height_in_inches(), whole(6));
    assert_eq!(nominal_board.get_length_in_feet(), whole(7));
}

#[test]
#[should_panic]
fn it_should_throw_an_exception_for_a_board_over_16_feet() {
    let actual_lumber_dim = Lumber::create_actual(whole(2), whole(4), whole(18));
    let _nominal_board = actual_lumber_dim.as_nearest_nominal().unwrap();
}

#[test]
fn a_board_over_16_feet_is_an_unsupported_size() {
    let board = Lumber::create_actual(whole(2), whole(4), whole(18));
    assert_eq!(board.as_nearest_nominal().err(), Some(LumberError::UnsupportedSize));
}

#[test]
fn a_board_of_exactly_16_feet_is_supported() {
    let board = Lumber::create_actual(whole(2), whole(4), whole(16));
    let nominal = board.as_nearest_nominal().unwrap();
    assert_eq!(nominal.get_length_in_feet(), whole(16));
    assert!(!nominal.is_nominal());
}

#[test]
fn the_identifier_string_for_a_2x4_should_be_2x4x8() {
    let two_by_four = Lumber::create_nominal(whole(2), whole(4), whole(8));
    let id_string = two_by_four.get_identifier_string();

    assert_eq!(id_string, "2x4x8");
}

#[test]
fn identifier_writes_fractions_without_trailing_zeros() {
    let board = Lumber::create_actual(value(0, 750_000), value(1, 500_000), value(6, 220_000));
    assert_eq!(board.get_identifier_string(), "0.75x1.5x6.22");
    let fine = Lumber::create_actual(value(0, 1), value(10, 100_000), whole(0));
    assert_eq!(fine.get_identifier_string(), "0.000001x10.1x0");
}

#[test]
fn every_standard_size_has_its_actual_size() {
    let expected = [
        (whole(1), value(0, 750_000)),
        (value(1, 250_000), whole(1)),
        (value(1, 500_000), value(1, 250_000)),
        (whole(2), value(1, 500_000)),
        (whole(3), value(2, 500_000)),
        (whole(4), value(3, 500_000)),
        (whole(5), value(4, 500_000)),
        (whole(6), value(5, 500_000)),
        (whole(7), value(6, 250_000)),
        (whole(8), value(7, 250_000)),
        (whole(10), value(9, 250_000)),
        (whole(12), value(11, 250_000)),
    ];
    for (nominal, actual) in expected.iter() {
        assert_eq!(to_actual_size_in_inches(*nominal), Ok(*actual));
        assert_eq!(to_actual_size_in_inches(*nominal), to_actual_size_in_inches(*nominal));
    }
    assert_eq!(get_conversion_chart_inches().len(), 12);
}

#[test]
fn a_size_missing_from_the_chart_is_a_lookup_error() {
    assert_eq!(to_actual_size_in_inches(whole(9)), Err(LumberError::Lookup));
    assert_eq!(to_actual_size_in_inches(value(1, 260_000)), Err(LumberError::Lookup));
    let odd = Lumber::create_nominal(whole(2), whole(9), whole(8));
    assert_eq!(odd.as_actual_size().err(), Some(LumberError::Lookup));
}

#[test]
fn nearest_nominal_inches_at_the_bounds() {
    assert_eq!(Lumber::get_nearest_nominal_size_inches(value(1, 250_000)), Ok(value(1, 500_000)));
    assert_eq!(Lumber::get_nearest_nominal_size_inches(whole(1)), Ok(whole(1)));
    assert_eq!(Lumber::get_nearest_nominal_size_inches(whole(2)), Ok(whole(2)));
    assert_eq!(Lumber::get_nearest_nominal_size_inches(value(8, 500_000)), Ok(whole(9)));
    assert_eq!(Lumber::get_nearest_nominal_size_inches(value(11, 999_999)), Ok(whole(12)));
    assert_eq!(Lumber::get_nearest_nominal_size_inches(whole(12)), Err(LumberError::UnsupportedSize));
}

#[test]
fn nearest_nominal_feet_rounds_up() {
    assert_eq!(Lumber::get_nearest_nominal_size_feet(value(6, 220_000)), Ok(whole(7)));
    assert_eq!(Lumber::get_nearest_nominal_size_feet(whole(8)), Ok(whole(8)));
    assert_eq!(Lumber::get_nearest_nominal_size_feet(value(16, 1)), Err(LumberError::UnsupportedSize));
}

#[test]
fn converting_to_actual_twice_is_converting_once() {
    let board = Lumber::create_nominal(whole(2), whole(4), whole(8));
    let once = board.as_actual_size().unwrap();
    let twice = once.as_actual_size().unwrap();
    assert_eq!(once.get_width_in_inches(), twice.get_width_in_inches());
    assert_eq!(once.get_height_in_inches(), twice.get_height_in_inches());
    assert_eq!(once.get_length_in_feet(), twice.get_length_in_feet());
    assert!(!twice.is_nominal());
}

#[test]
fn a_nominal_board_stays_as_it_is() {
    let board = Lumber::create_nominal(whole(4), whole(2), value(8, 500_000));
    let same = board.as_nearest_nominal().unwrap();
    assert_eq!(same.get_width_in_inches(), whole(4));
    assert_eq!(same.get_height_in_inches(), whole(2));
    assert_eq!(same.get_length_in_feet(), value(8, 500_000));
    assert!(same.is_nominal());
}

#[test]
fn length_in_inches_is_twelve_times_feet() {
    let board = Lumber::create_actual(whole(2), whole(4), value(1, 500_000));
    assert_eq!(board.get_length_in_inches(), whole(18));
}

#[test]
fn boards_with_the_same_identifier_are_equal() {
    let nominal = Lumber::create_nominal(whole(2), whole(4), whole(8));
    let actual = Lumber::create_actual(whole(2), whole(4), whole(8));
    let turned = Lumber::create_actual(whole(4), whole(2), whole(8));
    assert!(nominal == actual);
    assert!(nominal != turned);
}
