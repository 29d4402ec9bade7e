use steward::results::{ResultListState, RESULT_ROW_HEIGHT};

#[test]
fn selection_stays_in_the_list() {
    let mut list = ResultListState::new();
    assert_eq!(list.select_relative(1), None);
    list.set_results(3);
    assert_eq!(list.selected, Some(0));
    assert_eq!(list.select_relative(1), Some(1));
    assert_eq!(list.select_relative(5), Some(2));
    assert_eq!(list.select_relative(-9), Some(0));
    assert_eq!(list.confirm_selected(), Some(0));
    list.set_results(0);
    assert_eq!(list.confirm_selected(), None);
    list.ensure_selected();
    assert_eq!(list.selected, None);
}

#[test]
fn selected_row_is_in_view() {
    let mut list = ResultListState::new();
    list.set_results(20);
    let height = RESULT_ROW_HEIGHT * 8;
    assert_eq!(list.visible_range(height), 0..8);
    for _ in 0..19 {
        list.select_relative(1);
        let selected = list.selected.unwrap();
        assert!(list.visible_range(height).contains(&selected));
    }
    assert_eq!(list.visible_range(height), 12..20);
}
