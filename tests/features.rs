use bullet_core::ataxx147::{feature_pair, Ataxx147, Ataxx147Iter, AtaxxBitboards};
use bullet_core::schedule::{drops, save_due, sdg_step, warmup_drops};

#[test]
fn feature_indices_per_colour() {
    assert_eq!(feature_pair(0, 5), (5, 54));
    assert_eq!(feature_pair(1, 5), (54, 5));
    assert_eq!(feature_pair(2, 5), (103, 103));
}

#[test]
fn own_and_opposing_index_equal_only_for_gaps() {
    for sq in 0u8..49 {
        let (a, b) = feature_pair(0, sq);
        assert_ne!(a, b);
        let (a, b) = feature_pair(1, sq);
        assert_ne!(a, b);
        let (a, b) = feature_pair(2, sq);
        assert_eq!(a, b);
    }
}

#[test]
fn iterator_hands_out_pairs_in_order() {
    let mut it = Ataxx147Iter::from_pieces(vec![(0, 0), (1, 48), (2, 10)]);
    assert_eq!(it.next(), Some((0, 49)));
    assert_eq!(it.next(), Some((97, 48)));
    assert_eq!(it.next(), Some((108, 108)));
    assert_eq!(it.next(), None);
    assert_eq!(it.next(), None);
}

#[test]
fn ataxx_input_counts() {
    let inputs = Ataxx147 {};
    assert_eq!(inputs.inputs(), 147);
    assert_eq!(inputs.buckets(), 1);
}

#[test]
fn ataxx_board_features() {
    let board = bulletformat::AtaxxBoard::from_raw([0b101, 0b10, 1 << 48], 0, 0.5, false, 1, 0);
    let mut it = Ataxx147 {}.feature_iter(&AtaxxBitboards::from_board(&board));
    assert_eq!(it.next(), Some((0, 49)));
    assert_eq!(it.next(), Some((2, 51)));
    assert_eq!(it.next(), Some((50, 1)));
    assert_eq!(it.next(), Some((146, 146)));
    assert_eq!(it.next(), None);
}

#[test]
fn cosine_cycle_lengths() {
    assert_eq!(sdg_step(0, 10), 10);
    assert_eq!(sdg_step(19, 10), 10);
    assert_eq!(sdg_step(20, 10), 20);
    assert_eq!(sdg_step(39, 10), 20);
    assert_eq!(sdg_step(40, 10), 40);
    assert_eq!(sdg_step(80, 10), 80);
    assert_eq!(sdg_step(1000, 10), 80);
}

#[test]
fn step_drops_and_warmup() {
    assert_eq!(drops(0, 10), 0);
    assert_eq!(drops(1, 10), 0);
    assert_eq!(drops(10, 10), 0);
    assert_eq!(drops(11, 10), 1);
    assert_eq!(warmup_drops(5, 2, 5), (true, 2));
    assert_eq!(warmup_drops(8, 2, 5), (false, 1));
}

#[test]
fn checkpoints_due() {
    assert!(save_due(20, 10, 35));
    assert!(!save_due(21, 10, 35));
    assert!(save_due(35, 10, 35));
}

#[test]
fn bitboard_features_in_colour_then_square_order() {
    let pos = AtaxxBitboards { bbs: [1 << 63 | 1 << 3, 0, 1 << 1] };
    let mut it = Ataxx147 {}.feature_iter(&pos);
    assert_eq!(it.next(), Some((3, 52)));
    assert_eq!(it.next(), Some((63, 112)));
    assert_eq!(it.next(), Some((99, 99)));
    assert_eq!(it.next(), None);
    let mut empty = Ataxx147 {}.feature_iter(&AtaxxBitboards { bbs: [0, 0, 0] });
    assert_eq!(empty.next(), None);
}
