use cannon::board::{Board, BoardState};
use cannon::cannon_move::BitMove;
use cannon::color::Color;
use cannon::movegen::MoveGen;
use cannon::square::Square;
use cannon::tables::init;
use cannon::transposition::hash::{PIECES, SIDE};

fn sq(name: &str) -> Square {
    let b = name.as_bytes();
    Square::new((b[0] - b'a') + 8 * (b[1] - b'1'))
}

fn snapshot(board: &Board) -> (u64, u64, u64, u64, Color, bool) {
    (
        board.hash(),
        board.pieces().0,
        board.pieces_with_color(Color::White).0,
        board.pieces_with_color(Color::Black).0,
        board.side_to_move(),
        board.has_history(),
    )
}

#[test]
fn start_position_layout() {
    let board = Board::start_position();
    assert_eq!(board.side_to_move(), Color::White);
    assert_eq!(board.pieces_with_color(Color::White).0, 0x555555);
    assert_eq!(board.pieces_with_color(Color::Black).0, 0xaaaaaa00_00000000);
    assert_eq!(board.pieces().0, 0xaaaaaa00_00555555);
    assert_eq!(board.castle_with_color(Color::White).to_square(), sq("h1"));
    assert_eq!(board.castle_with_color(Color::Black).to_square(), sq("a8"));
    assert_eq!(board.pieces_with_castles().0, 0xabaaaa00_005555d5);
    assert_eq!(board.color_on(sq("a1")), Some(Color::White));
    assert_eq!(board.color_on(sq("b8")), Some(Color::Black));
    assert_eq!(board.color_on(sq("h1")), None);
    assert_eq!(board.color_on(sq("d5")), None);
    assert_eq!(board.player_pieces(), board.pieces_with_color(Color::White));
    assert_eq!(board.enemy_pieces(), board.pieces_with_color(Color::Black));
    assert_eq!(board.enemy_castle().to_square(), sq("a8"));
    assert!(!board.has_history());
    assert!(!board.last_capture());
    assert_eq!(board.prev_move(), BitMove::null());
}

#[test]
fn hash_is_xor_of_piece_keys_and_side_key() {
    let board = Board::start_position();
    assert_eq!(board.hash(), 9363018446027961891);
    let mut expected: u64 = 0;
    for s in 0..64usize {
        if board.color_on(Square::new(s as u8)) == Some(Color::White) {
            expected ^= PIECES[s];
        }
        if board.color_on(Square::new(s as u8)) == Some(Color::Black) {
            expected ^= PIECES[64 + s];
        }
    }
    assert_eq!(board.hash(), expected);
    let mut black = Board::start_position();
    black.flip_side();
    assert_eq!(black.hash(), expected ^ SIDE);
    assert_eq!(black.hash(), 4286647002685137522);
    assert_eq!(Board::new(Color::White).hash(), 0);
    assert_eq!(Board::new(Color::Black).hash(), SIDE);
    assert_eq!(PIECES[0], 591679071752537765);
    assert_eq!(SIDE, 13442441245975073873);
}

#[test]
fn apply_move_updates_position_and_hash() {
    let mut board = Board::start_position();
    board.apply_move(BitMove::make(sq("a3"), sq("a4")));
    assert_eq!(board.side_to_move(), Color::Black);
    assert_eq!(board.hash(), 5368066679154193556);
    assert_eq!(board.color_on(sq("a3")), None);
    assert_eq!(board.color_on(sq("a4")), Some(Color::White));
    assert!(board.has_history());
    assert!(!board.last_capture());
    assert_eq!(board.prev_move(), BitMove::make(sq("a3"), sq("a4")));
}

#[test]
fn capture_and_shot_remove_the_victim() {
    let mut board = Board::new(Color::White);
    for w in ["b2", "c3", "d4"] {
        board.set(Color::White, sq(w));
    }
    for b in ["f6", "e4", "g7"] {
        board.set(Color::Black, sq(b));
    }
    let before = snapshot(&board);
    board.apply_move(BitMove::make(sq("d4"), sq("e4")));
    assert!(board.last_capture());
    assert_eq!(board.color_on(sq("e4")), Some(Color::White));
    assert_eq!(board.color_on(sq("d4")), None);
    assert_eq!(board.pieces_with_color(Color::Black).count_bits(), 2);
    board.undo_move();
    assert_eq!(snapshot(&board), before);

    board.apply_move(BitMove::make_shot(sq("d4"), sq("f6")));
    assert!(board.last_capture());
    assert_eq!(board.color_on(sq("d4")), Some(Color::White));
    assert_eq!(board.color_on(sq("f6")), None);
    assert_eq!(board.side_to_move(), Color::Black);
    assert_eq!(
        board.hash(),
        before.0 ^ PIECES[64 + sq("f6").to_index()] ^ SIDE
    );
    board.undo_move();
    assert_eq!(snapshot(&board), before);
    assert_eq!(board.hash(), 11988069718148123654);
}

#[test]
fn moves_applied_and_undone_in_reverse_restore_everything() {
    let tables = init();
    let mut board = Board::start_position();
    let mut trail = vec![snapshot(&board)];
    let mut pick: usize = 7;
    for _ in 0..40 {
        let moves = match MoveGen::try_generate(&board, &tables) {
            Some(l) => l,
            None => break,
        };
        if moves.is_empty() {
            break;
        }
        pick = (pick * 31 + 11) % 1009;
        let m = moves.get(pick % moves.len());
        board.apply_move(m);
        assert_eq!(board.prev_move(), m);
        trail.push(snapshot(&board));
    }
    assert!(trail.len() > 10);
    while trail.len() > 1 {
        assert_eq!(snapshot(&board), trail.pop().unwrap());
        board.undo_move();
    }
    assert_eq!(snapshot(&board), trail[0]);
    assert_eq!(snapshot(&board), snapshot(&Board::start_position()));
}

#[test]
fn clones_share_history_and_go_their_own_ways() {
    let mut board = Board::start_position();
    board.apply_move(BitMove::make(sq("a3"), sq("a4")));
    let mut copy = board.shallow_clone();
    let other = board.clone();
    copy.apply_move(BitMove::make(sq("b6"), sq("b5")));
    assert_eq!(snapshot(&board), snapshot(&other));
    copy.undo_move();
    assert_eq!(snapshot(&copy), snapshot(&board));
    copy.undo_move();
    assert_eq!(snapshot(&copy), snapshot(&Board::start_position()));
    assert!(board.has_history());
}

#[test]
fn set_toggles_and_replaces() {
    let mut board = Board::new(Color::White);
    board.set(Color::White, sq("d4"));
    assert_eq!(board.hash(), PIECES[27]);
    board.set(Color::Black, sq("d4"));
    assert_eq!(board.color_on(sq("d4")), Some(Color::Black));
    assert_eq!(board.hash(), PIECES[64 + 27]);
    assert_eq!(board.pieces().count_bits(), 1);
    board.set(Color::Black, sq("d4"));
    assert_eq!(board.color_on(sq("d4")), None);
    assert_eq!(board.hash(), 0);
    assert!(board.pieces().is_empty());
}

#[test]
fn board_state_partial_clone_drops_the_move() {
    let state = BoardState {
        prev_move: BitMove::make(sq("a1"), sq("a2")),
        prev_capture: true,
        prev_state: None,
        hash: 77,
    };
    let clone = state.partial_clone();
    assert_eq!(clone.prev_move, BitMove::null());
    assert!(!clone.prev_capture);
    assert!(clone.prev_state.is_none());
    assert_eq!(clone.hash, 77);
    assert!(state.prev_state().is_none());
    let fresh = BoardState::default();
    assert_eq!(fresh.hash, 0);
    assert_eq!(fresh.prev_move, BitMove::null());
}
