use sm_connect::selection::clamped_position;
use sm_connect::selection::first_position;
use sm_connect::selection::next_position;
use sm_connect::selection::previous_position;

#[test]
fn first_position_is_zero_unless_empty() {
    assert_eq!(first_position(0), None);
    assert_eq!(first_position(1), Some(0));
    assert_eq!(first_position(7), Some(0));
}

#[test]
fn next_wraps_from_last_to_first() {
    assert_eq!(next_position(Some(0), 3), Some(1));
    assert_eq!(next_position(Some(1), 3), Some(2));
    assert_eq!(next_position(Some(2), 3), Some(0));
}

#[test]
fn previous_wraps_from_first_to_last() {
    assert_eq!(previous_position(Some(0), 3), Some(2));
    assert_eq!(previous_position(Some(2), 3), Some(1));
    assert_eq!(previous_position(Some(1), 3), Some(0));
}

#[test]
fn steps_on_an_empty_list_select_nothing() {
    assert_eq!(next_position(None, 0), None);
    assert_eq!(previous_position(None, 0), None);
}

#[test]
fn steps_on_a_single_item_stay() {
    assert_eq!(next_position(Some(0), 1), Some(0));
    assert_eq!(previous_position(Some(0), 1), Some(0));
}

#[test]
fn as_many_steps_as_items_lead_back() {
    for len in 1..8usize {
        for start in 0..len {
            let mut selected = Some(start);
            for _ in 0..len {
                selected = next_position(selected, len);
            }
            assert_eq!(selected, Some(start));
        }
    }
}

#[test]
fn previous_undoes_next_and_next_undoes_previous() {
    for len in 1..8usize {
        for start in 0..len {
            let there = next_position(Some(start), len);
            assert_eq!(previous_position(there, len), Some(start));
            let back = previous_position(Some(start), len);
            assert_eq!(next_position(back, len), Some(start));
        }
    }
}

#[test]
fn clamping_keeps_the_index_where_it_exists() {
    assert_eq!(clamped_position(Some(2), 5), Some(2));
    assert_eq!(clamped_position(Some(4), 5), Some(4));
    assert_eq!(clamped_position(Some(5), 5), Some(4));
    assert_eq!(clamped_position(Some(9), 3), Some(2));
    assert_eq!(clamped_position(Some(3), 0), None);
    assert_eq!(clamped_position(None, 0), None);
    assert_eq!(clamped_position(None, 4), Some(0));
}
