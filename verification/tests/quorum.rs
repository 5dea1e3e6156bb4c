use raft_core::quorum::calculate_new_commit_index;
use raft_core::quorum::majority_of;
use raft_core::quorum::snapshot_is_within_half_of_threshold;

#[test]
fn happy_path_true_when_within_half_threshold() {
    let res = snapshot_is_within_half_of_threshold(&50, &100, &500);
    assert_eq!(res, true);
}

#[test]
fn happy_path_false_when_above_half_threshold() {
    let res = snapshot_is_within_half_of_threshold(&1, &500, &100);
    assert_eq!(res, false);
}

#[test]
fn guards_against_underflow() {
    let res = snapshot_is_within_half_of_threshold(&200, &100, &500);
    assert_eq!(res, true);
}

#[test]
fn freshness_at_exactly_half_of_threshold() {
    // distance 50, threshold 100: exactly half is still fresh
    assert_eq!(snapshot_is_within_half_of_threshold(&50, &100, &100), true);
    // one past half is not
    assert_eq!(snapshot_is_within_half_of_threshold(&50, &100, &99), false);
}

#[test]
fn basic_values() {
    let entries = vec![(20, 3), (5, 2), (0, 2), (15, 3), (10, 3)];
    assert_eq!(calculate_new_commit_index(entries, 5, 3), 10);
}

#[test]
fn len_zero_should_return_current_commit() {
    assert_eq!(calculate_new_commit_index(vec![], 20, 10), 20);
}

#[test]
fn len_one_where_greater_than_current() {
    assert_eq!(calculate_new_commit_index(vec![(100, 3)], 0, 3), 100);
}

#[test]
fn len_one_where_greater_than_current_but_smaller_term() {
    assert_eq!(calculate_new_commit_index(vec![(100, 2)], 0, 3), 0);
}

#[test]
fn len_one_where_less_than_current() {
    assert_eq!(calculate_new_commit_index(vec![(50, 3)], 100, 3), 100);
}

#[test]
fn even_number_of_nodes() {
    let entries = vec![(0, 3), (100, 3), (0, 3), (100, 3), (0, 3), (100, 3)];
    assert_eq!(calculate_new_commit_index(entries, 0, 3), 0);
}

#[test]
fn majority_wins() {
    let entries = vec![(0, 3), (100, 3), (0, 3), (100, 3), (0, 3), (100, 3), (100, 3)];
    assert_eq!(calculate_new_commit_index(entries, 0, 3), 100);
}

#[test]
fn majority_entries_wins_but_not_current_term() {
    let entries = vec![(0, 2), (100, 2), (0, 2), (101, 3), (0, 2), (101, 3), (101, 3)];
    assert_eq!(calculate_new_commit_index(entries, 0, 3), 0);
}

#[test]
fn two_nodes_need_both() {
    // with two voters the majority is two: the smaller match rules
    assert_eq!(calculate_new_commit_index(vec![(4, 1), (9, 1)], 0, 1), 4);
}

#[test]
fn three_nodes_need_two() {
    assert_eq!(calculate_new_commit_index(vec![(4, 1), (9, 1), (7, 1)], 0, 1), 7);
}

#[test]
fn majority_sizes() {
    assert_eq!(majority_of(1), 1);
    assert_eq!(majority_of(2), 2);
    assert_eq!(majority_of(3), 2);
    assert_eq!(majority_of(4), 3);
    assert_eq!(majority_of(5), 3);
}

#[test]
fn result_never_below_current_commit() {
    // every input below the current commit leaves it in place
    assert_eq!(calculate_new_commit_index(vec![(1, 5), (2, 5), (3, 5)], 50, 5), 50);
}
