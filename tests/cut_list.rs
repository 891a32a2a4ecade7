use std::collections::HashMap;

use ripsaw::{CutList, FractionalValue, Lumber, LumberError, Settings};

fn whole(w: u32) -> FractionalValue {
    FractionalValue::from_whole(w)
}

#[test]
fn settings_should_return_a_default_blade_width_of_0125in() {
    let settings = Settings::new();

    assert_eq!(settings.get_blade_width_inches(), FractionalValue::new(0, 125_000));
}

#[test]
fn settings_specified_blade_width_should_be_preserved() {
    let mut hm: HashMap<String, String> = HashMap::new();
    hm.insert(String::from("blade_width_inches"), String::from(".334"));
    let settings = Settings::new_from_hashmap(hm).unwrap();

    assert_eq!(settings.get_blade_width_inches(), FractionalValue::new(0, 334_000));
}

#[test]
fn settings_from_an_empty_mapping_have_the_default() {
    let settings = Settings::new_from_hashmap(HashMap::new()).unwrap();
    assert_eq!(settings.get_blade_width_inches(), FractionalValue::new(0, 125_000));
}

#[test]
fn a_malformed_blade_width_is_refused() {
    let mut hm: HashMap<String, String> = HashMap::new();
    hm.insert(String::from("blade_width_inches"), String::from("wide"));
    assert_eq!(Settings::new_from_hashmap(hm).err(), Some(LumberError::Parse));
    assert_eq!(Settings::new_from_blade_width_text(Some("1/8")).err(), Some(LumberError::Parse));
}

#[test]
fn the_same_board_twice_is_one_entry_of_two() {
    let mut cut_list = CutList::new();
    cut_list.add(Lumber::create_nominal(whole(2), whole(4), whole(8)));
    cut_list.add(Lumber::create_nominal(whole(2), whole(4), whole(8)));

    assert_eq!(cut_list.num_entries(), 1);
    assert_eq!(cut_list.get_count(&Lumber::create_nominal(whole(2), whole(4), whole(8))), 2);
    assert_eq!(cut_list.get_num_boards(), 2);
}

#[test]
fn distinct_boards_are_counted_apart() {
    let mut cut_list = CutList::new_with_settings(Settings::new());
    cut_list.add(Lumber::create_nominal(whole(2), whole(4), whole(8)));
    cut_list.add(Lumber::create_actual(whole(4), whole(2), whole(8)));
    cut_list.add(Lumber::create_actual(whole(2), whole(4), whole(8)));

    assert_eq!(cut_list.num_entries(), 2);
    assert_eq!(cut_list.get_count(&Lumber::create_actual(whole(4), whole(2), whole(8))), 1);
    assert_eq!(cut_list.get_count(&Lumber::create_actual(whole(1), whole(2), whole(8))), 0);
    assert_eq!(cut_list.get_num_boards(), 3);
    assert_eq!(
        cut_list.to_report_string(),
        "Purchase List\n--------\n2x4x8 (2)\n4x2x8 (1)\n"
    );
}

#[test]
fn an_empty_cut_list_has_no_boards() {
    let cut_list = CutList::new();
    assert_eq!(cut_list.get_num_boards(), 0);
    assert_eq!(cut_list.to_report_string(), "Purchase List\n--------\n");
    assert_eq!(cut_list.get_settings().get_blade_width_inches(), FractionalValue::new(0, 125_000));
}
