use cannon::board::Board;
use cannon::cannon_move::BitMove;
use cannon::color::Color;
use cannon::search::{
    alpha_beta_search, quiescence, search, search_with, INF, LOSS, NEG_INF, QUIESCENCE_DEPTH,
    SEARCH_SLOTS, WIN,
};
use cannon::square::Square;
use cannon::tables::init;
use cannon::transposition::TTable;

fn sq(name: &str) -> Square {
    let b = name.as_bytes();
    Square::new((b[0] - b'a') + 8 * (b[1] - b'1'))
}

fn board_of(white: &[&str], black: &[&str], castles: (&str, &str), side: Color) -> Board {
    let mut board = Board::new(side);
    for w in white {
        board.set(Color::White, sq(w));
    }
    for b in black {
        board.set(Color::Black, sq(b));
    }
    board.set_castle(Color::White, sq(castles.0));
    board.set_castle(Color::Black, sq(castles.1));
    board
}

fn table(size: usize) -> TTable {
    let mut t = TTable::default();
    t.allocate(size);
    t
}

#[test]
fn position_without_a_move_is_lost_at_every_depth() {
    let tables = init();
    let mut board = board_of(&["a8"], &["c5"], ("h1", "e8"), Color::White);
    for depth in 1..=6u16 {
        let mut tt = table(256);
        let r = alpha_beta_search(&mut board, &tables, &mut tt, NEG_INF, INF, depth, 0)
            .expect("no list runs full");
        assert_eq!(r.bitmove(), BitMove::null());
        assert_eq!(r.score(), -5000);
        assert_eq!(r.score(), LOSS);
    }
}

#[test]
fn no_plies_left_return_the_static_score() {
    let tables = init();
    let mut board = board_of(&["a8"], &["c5"], ("h1", "e8"), Color::White);
    let mut tt = table(256);
    let r = alpha_beta_search(&mut board, &tables, &mut tt, NEG_INF, INF, 0, 0).unwrap();
    assert_eq!((r.bitmove(), r.score()), (BitMove::null(), 4));
    let mut start = Board::start_position();
    let r = alpha_beta_search(&mut start, &tables, &mut tt, NEG_INF, INF, 0, 0).unwrap();
    assert_eq!((r.bitmove(), r.score()), (BitMove::null(), 0));
}

#[test]
fn capture_search_without_captures_returns_the_static_score() {
    let tables = init();
    let mut board = Board::start_position();
    let mut tt = table(256);
    let r = quiescence(&mut board, &tables, &mut tt, NEG_INF, INF, QUIESCENCE_DEPTH).unwrap();
    assert_eq!((r.bitmove(), r.score()), (BitMove::null(), 0));
    let r = quiescence(&mut board, &tables, &mut tt, NEG_INF, INF, 0).unwrap();
    assert_eq!((r.bitmove(), r.score()), (BitMove::null(), 0));
}

#[test]
fn move_onto_the_castle_is_taken_at_once() {
    let tables = init();
    let mut board = board_of(&["g8", "a1"], &["a7"], ("h1", "h8"), Color::White);
    let win = BitMove::make(sq("g8"), sq("h8"));
    for depth in 1..=5u16 {
        let mut tt = table(256);
        let r = search_with(&mut board, &tables, &mut tt, depth).expect("no list runs full");
        assert_eq!(r.bitmove(), win);
        assert_eq!(r.score(), 5000);
        assert_eq!(r.score(), WIN);
        let mut tt = table(256);
        let r = alpha_beta_search(&mut board, &tables, &mut tt, NEG_INF, INF, depth, 0).unwrap();
        assert_eq!((r.bitmove(), r.score()), (win, WIN));
    }
}

#[test]
fn later_move_onto_the_castle_is_found() {
    let tables = init();
    let mut board = board_of(&["g7", "a1"], &["a7"], ("h1", "h8"), Color::White);
    let win = BitMove::make(sq("g7"), sq("h8"));
    for depth in 1..=4u16 {
        let mut tt = table(256);
        let r = search_with(&mut board, &tables, &mut tt, depth).expect("no list runs full");
        assert_eq!((r.bitmove(), r.score()), (win, WIN));
    }
}

#[test]
fn shot_at_the_castle_wins() {
    let tables = init();
    let mut board = board_of(&["e5", "d4", "c3"], &["a7"], ("a1", "h8"), Color::White);
    let mut tt = table(256);
    let r = search_with(&mut board, &tables, &mut tt, 3).unwrap();
    assert_eq!((r.bitmove(), r.score()), (BitMove::make_shot(sq("e5"), sq("h8")), WIN));
}

#[test]
fn search_of_a_position_without_a_move_returns_the_null_move() {
    let tables = init();
    let mut board = board_of(&["a8"], &["c5"], ("h1", "e8"), Color::White);
    let mut tt = table(256);
    let r = search_with(&mut board, &tables, &mut tt, 4).unwrap();
    assert_eq!(r.bitmove(), BitMove::null());
    assert_eq!(r.score(), NEG_INF);
    let r = search_with(&mut board, &tables, &mut tt, 0).unwrap();
    assert_eq!((r.bitmove(), r.score()), (BitMove::null(), NEG_INF));
}

#[test]
fn same_search_gives_the_same_result() {
    let tables = init();
    let mut board = Board::start_position();
    let before = (board.hash(), board.pieces(), board.side_to_move(), board.has_history());
    let mut first_table = table(4096);
    let mut second_table = table(4096);
    let first = search_with(&mut board, &tables, &mut first_table, 3).expect("fits");
    let second = search_with(&mut board, &tables, &mut second_table, 3).expect("fits");
    assert_eq!(first.bitmove(), second.bitmove());
    assert_eq!(first.score(), second.score());
    let third = search_with(&mut board, &tables, &mut first_table, 3).expect("fits");
    assert_eq!((third.bitmove(), third.score()), (first.bitmove(), first.score()));
    assert_ne!(first.bitmove(), BitMove::null());
    assert!(board.generate_moves_for(&tables, first.bitmove().src()).contains(&first.bitmove()));
    assert_eq!(
        before,
        (board.hash(), board.pieces(), board.side_to_move(), board.has_history())
    );
}

#[test]
fn search_takes_a_free_piece() {
    let tables = init();
    let mut board = board_of(&["d4"], &["e4", "a8"], ("h1", "h8"), Color::White);
    let mut tt = table(1024);
    let r = search_with(&mut board, &tables, &mut tt, 1).unwrap();
    assert_eq!(r.bitmove(), BitMove::make(sq("d4"), sq("e4")));
}

#[test]
fn tree_with_too_many_moves_gives_none() {
    let tables = init();
    let mut board = Board::new(Color::White);
    for rank in [0u8, 2, 4, 6] {
        for file in 0..8u8 {
            board.set(Color::White, Square::new(rank * 8 + file));
        }
    }
    let mut tt = table(256);
    assert!(search_with(&mut board, &tables, &mut tt, 2).is_none());
    assert!(alpha_beta_search(&mut board, &tables, &mut tt, NEG_INF, INF, 1, 0).is_none());
    let at_leaf = alpha_beta_search(&mut board, &tables, &mut tt, NEG_INF, INF, 0, 0);
    assert!(at_leaf.is_some());
}

#[test]
fn search_with_a_table_of_its_own() {
    let tables = init();
    let mut board = board_of(&["g7", "a1"], &["a7"], ("h1", "h8"), Color::White);
    let r = search(&mut board, &tables, 1).expect("no list runs full");
    assert_eq!((r.bitmove(), r.score()), (BitMove::make(sq("g7"), sq("h8")), WIN));
    let mut start = Board::start_position();
    let first = search(&mut start, &tables, 1).expect("fits");
    let second = search(&mut start, &tables, 1).expect("fits");
    assert_eq!((first.bitmove(), first.score()), (second.bitmove(), second.score()));
    assert_eq!(SEARCH_SLOTS, 1 << 24);
}

#[test]
fn search_does_not_depend_on_the_moves_that_led_to_the_position() {
    let tables = init();
    let mut one = Board::start_position();
    one.apply_move(BitMove::make(sq("a3"), sq("a4")));
    one.apply_move(BitMove::make(sq("h6"), sq("h5")));
    one.apply_move(BitMove::make(sq("g3"), sq("g4")));
    one.apply_move(BitMove::make(sq("b6"), sq("b5")));
    let mut other = Board::start_position();
    other.apply_move(BitMove::make(sq("g3"), sq("g4")));
    other.apply_move(BitMove::make(sq("b6"), sq("b5")));
    other.apply_move(BitMove::make(sq("a3"), sq("a4")));
    other.apply_move(BitMove::make(sq("h6"), sq("h5")));
    assert_eq!(one.hash(), other.hash());
    let mut t1 = table(2048);
    let mut t2 = table(2048);
    let a = search_with(&mut one, &tables, &mut t1, 3).expect("fits");
    let b = search_with(&mut other, &tables, &mut t2, 3).expect("fits");
    assert_eq!((a.bitmove(), a.score()), (b.bitmove(), b.score()));
}

#[test]
fn quiet_leaf_after_a_capture_searches_captures() {
    let tables = init();
    let mut board = board_of(&["d4", "a1"], &["e4", "e5", "h8"], ("h1", "a8"), Color::White);
    board.apply_move(BitMove::make(sq("d4"), sq("e4")));
    assert!(board.last_capture());
    let mut tt = table(256);
    let leaf = alpha_beta_search(&mut board, &tables, &mut tt, NEG_INF, INF, 0, 1).unwrap();
    assert_eq!(leaf.bitmove(), BitMove::make(sq("e5"), sq("e4")));
    let mut tt = table(256);
    let quiet = quiescence(&mut board, &tables, &mut tt, NEG_INF, INF, QUIESCENCE_DEPTH).unwrap();
    assert_eq!((leaf.bitmove(), leaf.score()), (quiet.bitmove(), quiet.score()));
}
