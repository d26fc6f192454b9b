use voxurf::ids::{id_to_selector, selector_to_id};

#[test]
fn virtual_id_of_second_selector_is_three() {
    let selectors = vec!['a', 'b', 'c'];
    assert_eq!(selector_to_id(&'b', &selectors), 3);
}

#[test]
fn virtual_id_three_resolves_to_second_selector() {
    let selectors = vec!['a', 'b', 'c'];
    assert_eq!(id_to_selector(3, &selectors), Some(&'b'));
}

#[test]
fn virtual_id_four_resolves_to_nothing() {
    let selectors = vec!['a', 'b', 'c'];
    assert_eq!(id_to_selector(4, &selectors), None);
}

#[test]
fn virtual_id_past_the_list_resolves_to_nothing() {
    let selectors = vec!['a', 'b', 'c'];
    assert_eq!(id_to_selector(9, &selectors), None);
    assert_eq!(id_to_selector(6, &selectors), Some(&'c'));
    assert_eq!(id_to_selector(0, &selectors), Some(&'a'));
}

#[test]
fn every_selector_round_trips_through_its_id() {
    let selectors = vec![10u32, 20, 30, 40];
    for s in &selectors {
        let id = selector_to_id(s, &selectors);
        assert_eq!(id % 3, 0);
        assert_eq!(id_to_selector(id, &selectors), Some(s));
    }
}

#[test]
fn repeated_selector_gets_the_id_of_its_first_position() {
    let selectors = vec![7u32, 8, 7];
    assert_eq!(selector_to_id(&7, &selectors), 0);
    assert_eq!(selector_to_id(&8, &selectors), 3);
}
