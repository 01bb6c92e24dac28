use cannon::board::Board;
use cannon::cannon_move::BitMove;
use cannon::color::Color;
use cannon::eval::{eval, EVAL_LIMIT, PIECE_VALUE};
use cannon::square::Square;
use cannon::tables::init;

fn sq(name: &str) -> Square {
    let b = name.as_bytes();
    Square::new((b[0] - b'a') + 8 * (b[1] - b'1'))
}

fn board_of(white: &[&str], black: &[&str], castles: (&str, &str), side: Color) -> Board {
    let mut board = Board::new(side);
    for w in white {
        board.set(Color::White, sq(w));
    }
    for b in black {
        board.set(Color::Black, sq(b));
    }
    board.set_castle(Color::White, sq(castles.0));
    board.set_castle(Color::Black, sq(castles.1));
    board
}

#[test]
fn start_position_is_level() {
    let tables = init();
    let mut board = Board::start_position();
    assert_eq!(eval(&board, &tables), 0);
    board.flip_side();
    assert_eq!(eval(&board, &tables), 0);
}

#[test]
fn evaluation_takes_the_side_to_move() {
    let tables = init();
    let white = board_of(&["b2", "c3", "d4"], &["f6", "e4", "g7"], ("h1", "a8"), Color::White);
    let black = board_of(&["b2", "c3", "d4"], &["f6", "e4", "g7"], ("h1", "a8"), Color::Black);
    assert_eq!(eval(&white, &tables), -2);
    assert_eq!(eval(&black, &tables), 2);
}

#[test]
fn evaluation_after_a_move() {
    let tables = init();
    let mut board = Board::start_position();
    board.apply_move(BitMove::make(sq("a3"), sq("a4")));
    assert_eq!(eval(&board, &tables), -2);
    board.undo_move();
    assert_eq!(eval(&board, &tables), 0);
}

#[test]
fn lone_piece_far_from_the_castles() {
    let tables = init();
    let board = board_of(&["a8"], &["c5"], ("h1", "e8"), Color::White);
    assert_eq!(eval(&board, &tables), 4);
    assert_eq!(PIECE_VALUE, 8);
}

#[test]
fn evaluation_stays_within_its_limit() {
    let tables = init();
    let mut board = Board::new(Color::White);
    for s in 0..64u8 {
        board.set(Color::White, Square::new(s));
    }
    let full = eval(&board, &tables);
    assert!(-EVAL_LIMIT <= full && full <= EVAL_LIMIT);
    assert_eq!(full, 8 * 64 + 64 + 210 - 82);
}
