use tilegame::tileoutline::{ConnectedNeighbors, OUTLINE_COUNT, OUTLINE_ENCLOSED};

fn neighbors_from_bits(bits: u32) -> ConnectedNeighbors {
    let mut n = ConnectedNeighbors::new();
    n.top_left = bits & 1 != 0;
    n.top = bits & 2 != 0;
    n.top_right = bits & 4 != 0;
    n.left = bits & 8 != 0;
    n.right = bits & 16 != 0;
    n.bottom = bits & 32 != 0;
    n.bottom_left = bits & 64 != 0;
    n.bottom_right = bits & 128 != 0;
    n
}

#[test]
fn new_neighbors_are_all_unconnected() {
    let n = ConnectedNeighbors::new();
    assert!(!n.top_left && !n.top && !n.top_right && !n.left);
    assert!(!n.right && !n.bottom && !n.bottom_left && !n.bottom_right);
}

#[test]
fn lonely_tile_has_outline_31() {
    assert_eq!(ConnectedNeighbors::new().get_outline_id(), 31);
}

#[test]
fn enclosed_tile_has_outline_40() {
    assert_eq!(neighbors_from_bits(255).get_outline_id(), 40);
    assert_eq!(OUTLINE_ENCLOSED, 40);
}

#[test]
fn single_edges_have_their_outlines() {
    let mut n = ConnectedNeighbors::new();
    n.top = true;
    assert_eq!(n.get_outline_id(), 7);
    let mut n = ConnectedNeighbors::new();
    n.bottom = true;
    assert_eq!(n.get_outline_id(), 14);
    let mut n = ConnectedNeighbors::new();
    n.left = true;
    assert_eq!(n.get_outline_id(), 6);
    let mut n = ConnectedNeighbors::new();
    n.right = true;
    assert_eq!(n.get_outline_id(), 15);
}

#[test]
fn four_edges_without_corners_have_outline_23() {
    let mut n = ConnectedNeighbors::new();
    n.top = true;
    n.bottom = true;
    n.left = true;
    n.right = true;
    assert_eq!(n.get_outline_id(), 23);
    n.top_left = true;
    assert_eq!(n.get_outline_id(), 42);
    n.bottom_right = true;
    assert_eq!(n.get_outline_id(), 39);
}

#[test]
fn corner_without_both_edges_is_ignored() {
    let mut n = ConnectedNeighbors::new();
    n.top = true;
    n.left = true;
    assert_eq!(n.get_outline_id(), 10);
    n.bottom_right = true;
    n.top_right = true;
    n.bottom_left = true;
    assert_eq!(n.get_outline_id(), 10);
    n.top_left = true;
    assert_eq!(n.get_outline_id(), 32);
}

#[test]
fn every_pattern_has_an_outline_from_1_to_47() {
    let mut seen = vec![false; OUTLINE_COUNT + 1];
    for bits in 0..256 {
        let id = neighbors_from_bits(bits).get_outline_id();
        assert!(1 <= id && id <= OUTLINE_COUNT);
        seen[id] = true;
    }
    for id in 1..=OUTLINE_COUNT {
        assert!(seen[id]);
    }
}
