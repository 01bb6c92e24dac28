use cannon::board::Board;
use cannon::cannon_move::BitMove;
use cannon::color::Color;
use cannon::square::Square;
use cannon::transposition::{
    TTEntry, TTable, AGE_INC, FLAGS, FLAG_EXACT, FLAG_LOWER, FLAG_UPPER, TT_SIZE,
};

fn table(size: usize) -> TTable {
    let mut t = TTable::default();
    t.allocate(size);
    t
}

#[test]
fn allocate_rounds_up_to_a_power_of_two() {
    assert_eq!(TTable::default().capacity(), 0);
    assert_eq!(table(0).capacity(), 1);
    assert_eq!(table(1).capacity(), 1);
    assert_eq!(table(2).capacity(), 2);
    assert_eq!(table(3).capacity(), 4);
    assert_eq!(table(1000).capacity(), 1024);
    assert_eq!(table(1024).capacity(), 1024);
    assert_eq!(table(1025).capacity(), 2048);
    assert_eq!(TT_SIZE, 10000000);
}

#[test]
fn fresh_table_misses_every_hash() {
    let mut t = table(64);
    for h in 0..1000u64 {
        assert_eq!(t.get(h), None);
        assert_eq!(t.get(h.wrapping_mul(0x9e3779b97f4a7c15)), None);
    }
    assert_eq!(t.get(0), None);
    assert_eq!(t.get(u64::MAX), None);
}

#[test]
fn insert_then_get_returns_what_was_stored() {
    let mut t = table(64);
    let board = Board::start_position();
    let m = BitMove::make(Square::new(Square::A3), Square::new(Square::A4));
    t.insert(&board, 42, m, FLAG_EXACT, 5);
    let e = t.get(board.hash()).expect("the entry was stored");
    assert_eq!(e.mv, m);
    assert_eq!(e.score(), 42);
    assert_eq!(e.depth, 5);
    assert_eq!(e.hash, board.hash());
    assert!(e.is_exact());
    assert!(!e.is_lower());
    assert!(!e.is_upper());
    assert!(e.is_some());
    assert!(e.is_hit(board.hash()));
    assert!(!e.is_hit(board.hash() ^ 1));
    assert_eq!(t.get(board.hash() ^ 64), None);
    t.allocate(64);
    assert_eq!(t.get(board.hash()), None);
}

#[test]
fn deeper_entry_of_the_same_age_stays() {
    let mut t = table(16);
    let board = Board::start_position();
    let deep = BitMove::make(Square::new(0), Square::new(9));
    let shallow = BitMove::make(Square::new(2), Square::new(9));
    t.insert(&board, 10, deep, FLAG_LOWER, 6);
    t.insert(&board, 20, shallow, FLAG_UPPER, 5);
    let e = t.get(board.hash()).unwrap();
    assert_eq!((e.mv, e.score(), e.depth), (deep, 10, 6));
    assert!(e.is_lower());
    t.insert(&board, 30, shallow, FLAG_UPPER, 6);
    let e = t.get(board.hash()).unwrap();
    assert_eq!((e.mv, e.score(), e.depth), (shallow, 30, 6));
    assert!(e.is_upper());
}

#[test]
fn old_entries_give_way_to_shallower_ones() {
    let mut t = table(16);
    let board = Board::start_position();
    let old = BitMove::make(Square::new(0), Square::new(9));
    let new = BitMove::make(Square::new(2), Square::new(9));
    t.insert(&board, 10, old, FLAG_EXACT, 10);
    t.increment_age();
    t.insert(&board, 20, new, FLAG_EXACT, 5);
    assert_eq!(t.get(board.hash()).unwrap().mv, old);
    t.increment_age();
    t.insert(&board, 20, new, FLAG_EXACT, 5);
    assert_eq!(t.get(board.hash()).unwrap().mv, old);
    t.insert(&board, 20, new, FLAG_EXACT, 9);
    assert_eq!(t.get(board.hash()).unwrap().mv, old);
    assert_eq!(AGE_INC, 4);
    assert_eq!(FLAGS, 3);
}

#[test]
fn a_look_up_keeps_an_entry_young() {
    let mut aged = table(16);
    let mut used = table(16);
    let board = Board::start_position();
    let old = BitMove::make(Square::new(0), Square::new(9));
    let new = BitMove::make(Square::new(2), Square::new(9));
    aged.insert(&board, 10, old, FLAG_EXACT, 10);
    used.insert(&board, 10, old, FLAG_EXACT, 10);
    for _ in 0..2 {
        aged.increment_age();
        used.increment_age();
    }
    assert_eq!(used.get(board.hash()).unwrap().age, 8);
    aged.insert(&board, 20, new, FLAG_EXACT, 2);
    used.insert(&board, 20, new, FLAG_EXACT, 2);
    assert_eq!(aged.get(board.hash()).unwrap().mv, new);
    assert_eq!(used.get(board.hash()).unwrap().mv, old);
}

#[test]
fn entries_share_a_slot_by_low_bits() {
    let mut t = table(4);
    let mut a = Board::new(Color::White);
    a.set(Color::White, Square::new(0));
    let m = BitMove::make(Square::new(0), Square::new(8));
    t.insert(&a, 1, m, FLAG_EXACT, 1);
    let h = a.hash();
    assert!(t.get(h).is_some());
    assert_eq!(t.get(h ^ 4), None);
    assert_eq!(t.get(h ^ 1), None);
    assert_eq!(TTEntry::default().flag, 0);
    assert!(!TTEntry::default().is_some());
}
