use semcs::navigation::{
    cycle_mode, history_next_index, history_previous_index, next_result_index,
    previous_result_index, scroll_down, scroll_for_line, scroll_up,
};
use semcs::types::SearchMode;

#[test]
fn results_wrap_around() {
    assert_eq!(next_result_index(0, 3), 1);
    assert_eq!(next_result_index(2, 3), 0);
    assert_eq!(previous_result_index(0, 3), 2);
    assert_eq!(previous_result_index(2, 3), 1);
    for i in 0..5 {
        assert_eq!(previous_result_index(next_result_index(i, 5), 5), i);
    }
}

#[test]
fn history_moves_within_bounds() {
    assert_eq!(history_previous_index(0, 3), None);
    assert_eq!(history_previous_index(2, 3), Some(1));
    assert_eq!(history_previous_index(2, 0), None);
    assert_eq!(history_next_index(1, 3), Some(2));
    assert_eq!(history_next_index(2, 3), None);
    assert_eq!(history_next_index(0, 0), None);
}

#[test]
fn modes_cycle() {
    assert_eq!(cycle_mode(SearchMode::Semantic), SearchMode::Regex);
    assert_eq!(cycle_mode(SearchMode::Regex), SearchMode::Hybrid);
    assert_eq!(cycle_mode(SearchMode::Hybrid), SearchMode::Semantic);
    assert_eq!(cycle_mode(SearchMode::Lexical), SearchMode::Semantic);
}

#[test]
fn scrolling_in_full_file_mode() {
    assert_eq!(scroll_down(5, true), 15);
    assert_eq!(scroll_down(5, false), 5);
    assert_eq!(scroll_up(15, true), 5);
    assert_eq!(scroll_up(4, true), 0);
    assert_eq!(scroll_up(4, false), 4);
    assert_eq!(scroll_for_line(20), 14);
    assert_eq!(scroll_for_line(3), 0);
}
