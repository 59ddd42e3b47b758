use game_of_life::rule::next_state;

#[test]
fn live_cell_with_fewer_than_two_neighbors_dies() {
    assert!(!next_state(true, 0));
    assert!(!next_state(true, 1));
}

#[test]
fn live_cell_with_two_or_three_neighbors_survives() {
    assert!(next_state(true, 2));
    assert!(next_state(true, 3));
}

#[test]
fn live_cell_with_more_than_three_neighbors_dies() {
    for n in 4..=8u8 {
        assert!(!next_state(true, n), "alive with {} neighbours", n);
    }
}

#[test]
fn dead_cell_is_born_with_exactly_three_neighbors() {
    for n in 0..=8u8 {
        assert_eq!(next_state(false, n), n == 3, "dead with {} neighbours", n);
    }
}
