use credit_store_demo::span_frame::{
    find_hard_reset_target, find_latest_in_span, find_next_in_span, find_pop_target,
    find_push_target, find_soft_reset_target, find_switch_target, rank_of, span_exists,
    span_frame_exists, NavigationError, SpanFrame,
};

fn sf(span: i32, frame: i32) -> SpanFrame {
    SpanFrame { span, frame }
}

#[test]
fn rank_is_the_absolute_value() {
    assert_eq!(rank_of(0), 0);
    assert_eq!(rank_of(7), 7);
    assert_eq!(rank_of(-7), 7);
    assert_eq!(rank_of(i32::MAX), 2147483647);
    assert_eq!(rank_of(i32::MIN), 2147483648);
}

#[test]
fn latest_of_an_empty_span_is_none() {
    assert_eq!(find_latest_in_span(&vec![], 1), None);
    assert_eq!(find_latest_in_span(&vec![sf(1, 1), sf(1, 2)], 2), None);
}

#[test]
fn latest_is_the_highest_frame_of_the_span() {
    let nodes = vec![sf(1, 1), sf(2, 5), sf(1, 3), sf(1, 2), sf(2, 1)];
    assert_eq!(find_latest_in_span(&nodes, 1), Some(sf(1, 3)));
    assert_eq!(find_latest_in_span(&nodes, 2), Some(sf(2, 5)));
}

#[test]
fn latest_compares_frames_by_absolute_value() {
    let nodes = vec![sf(1, 2), sf(1, -5), sf(1, 4)];
    assert_eq!(find_latest_in_span(&nodes, 1), Some(sf(1, -5)));
}

#[test]
fn latest_of_equal_ranks_is_the_one_created_last() {
    assert_eq!(find_latest_in_span(&vec![sf(1, 3), sf(1, -3)], 1), Some(sf(1, -3)));
    assert_eq!(find_latest_in_span(&vec![sf(1, -3), sf(1, 3)], 1), Some(sf(1, 3)));
}

#[test]
fn latest_handles_the_lowest_frame_number() {
    let nodes = vec![sf(1, i32::MAX), sf(1, i32::MIN)];
    assert_eq!(find_latest_in_span(&nodes, 1), Some(sf(1, i32::MIN)));
}

#[test]
fn next_in_an_empty_span_is_frame_one() {
    assert_eq!(find_next_in_span(&vec![sf(1, 1)], 4), Ok(sf(4, 1)));
}

#[test]
fn next_is_one_past_the_latest() {
    assert_eq!(find_next_in_span(&vec![sf(1, 1), sf(1, 2)], 1), Ok(sf(1, 3)));
    assert_eq!(find_next_in_span(&vec![sf(1, -5), sf(1, 2)], 1), Ok(sf(1, -4)));
}

#[test]
fn next_past_the_highest_frame_is_out_of_range() {
    assert_eq!(find_next_in_span(&vec![sf(1, i32::MAX)], 1), Err(NavigationError::OutOfRange));
}

#[test]
fn push_from_the_root_into_an_empty_span_gives_frame_one() {
    assert_eq!(find_push_target(&vec![sf(1, 1)], &sf(1, 1)), Ok(sf(2, 1)));
}

#[test]
fn second_push_from_the_root_gives_frame_two() {
    assert_eq!(find_push_target(&vec![sf(1, 1), sf(2, 1)], &sf(1, 1)), Ok(sf(2, 2)));
}

#[test]
fn push_from_the_highest_span_is_out_of_range() {
    assert_eq!(
        find_push_target(&vec![sf(i32::MAX, 1)], &sf(i32::MAX, 1)),
        Err(NavigationError::OutOfRange)
    );
}

#[test]
fn pop_from_span_one_is_refused() {
    assert_eq!(
        find_pop_target(&vec![sf(1, 1), sf(0, 1)], &sf(1, 1)),
        Err(NavigationError::LowestSpan)
    );
}

#[test]
fn pop_moves_to_the_latest_node_below() {
    let nodes = vec![sf(1, 1), sf(1, 2), sf(2, 1)];
    assert_eq!(find_pop_target(&nodes, &sf(2, 1)), Ok(sf(1, 2)));
}

#[test]
fn pop_without_a_node_below_is_not_found() {
    assert_eq!(
        find_pop_target(&vec![sf(3, 1), sf(1, 1)], &sf(3, 1)),
        Err(NavigationError::SpanNotFound { span: 2 })
    );
}

#[test]
fn pop_from_the_lowest_span_number_is_out_of_range() {
    assert_eq!(
        find_pop_target(&vec![sf(i32::MIN, 1)], &sf(i32::MIN, 1)),
        Err(NavigationError::OutOfRange)
    );
}

#[test]
fn switch_to_an_existing_node_succeeds() {
    let nodes = vec![sf(1, 1), sf(2, 1), sf(2, 2)];
    assert_eq!(find_switch_target(&nodes, 2, 2), Ok(sf(2, 2)));
}

#[test]
fn switch_to_a_missing_span_names_the_span() {
    assert_eq!(
        find_switch_target(&vec![sf(1, 1)], 2, 1),
        Err(NavigationError::SpanNotFound { span: 2 })
    );
}

#[test]
fn switch_to_a_missing_frame_names_the_node() {
    assert_eq!(
        find_switch_target(&vec![sf(1, 1)], 1, 2),
        Err(NavigationError::FrameNotFound { span: 1, frame: 2 })
    );
}

#[test]
fn soft_reset_stays_in_the_span() {
    let nodes = vec![sf(1, 1), sf(2, 1), sf(2, 2)];
    assert_eq!(find_soft_reset_target(&nodes, &sf(2, 1)), Ok(sf(2, 3)));
}

#[test]
fn soft_reset_in_an_empty_span_is_not_found() {
    assert_eq!(
        find_soft_reset_target(&vec![sf(1, 1)], &sf(2, 1)),
        Err(NavigationError::SpanNotFound { span: 2 })
    );
}

#[test]
fn soft_reset_past_the_highest_frame_is_out_of_range() {
    assert_eq!(
        find_soft_reset_target(&vec![sf(1, i32::MAX)], &sf(1, i32::MAX)),
        Err(NavigationError::OutOfRange)
    );
}

#[test]
fn hard_reset_goes_to_span_one() {
    let nodes = vec![sf(1, 1), sf(2, 1), sf(1, 2)];
    assert_eq!(find_hard_reset_target(&nodes), Ok(sf(1, 3)));
}

#[test]
fn hard_reset_without_span_one_is_not_found() {
    assert_eq!(
        find_hard_reset_target(&vec![sf(2, 1)]),
        Err(NavigationError::SpanNotFound { span: 1 })
    );
}

#[test]
fn span_and_node_lookups() {
    let nodes = vec![sf(1, 1), sf(2, 4)];
    assert!(span_exists(&nodes, 2));
    assert!(!span_exists(&nodes, 3));
    assert!(span_frame_exists(&nodes, 2, 4));
    assert!(!span_frame_exists(&nodes, 2, 1));
    assert!(!span_frame_exists(&nodes, 4, 2));
}
