use cannon::bitboard::BitBoard;
use cannon::board::Board;
use cannon::cannon_move::BitMove;
use cannon::color::Color;
use cannon::movegen::{MoveGen, MoveList, MAX_MOVES};
use cannon::square::Square;
use cannon::tables::{init, Tables};

fn sq(name: &str) -> Square {
    let b = name.as_bytes();
    Square::new((b[0] - b'a') + 8 * (b[1] - b'1'))
}

fn board_of(white: &[&str], black: &[&str], castles: Option<(&str, &str)>, side: Color) -> Board {
    let mut board = Board::new(side);
    for w in white {
        board.set(Color::White, sq(w));
    }
    for b in black {
        board.set(Color::Black, sq(b));
    }
    if let Some((w, b)) = castles {
        board.set_castle(Color::White, sq(w));
        board.set_castle(Color::Black, sq(b));
    }
    board
}

fn triples(list: &MoveList) -> Vec<(u8, u8, bool)> {
    let mut out = Vec::new();
    for i in 0..list.len() {
        let m = list.get(i);
        out.push((m.src_u8(), m.dst_u8(), m.is_shot()));
    }
    out
}

fn all_moves(board: &Board, tables: &Tables) -> Vec<(u8, u8, bool)> {
    triples(&MoveGen::try_generate(board, tables).expect("the moves fit a list"))
}

#[test]
fn move_test() {
    let tables = init();
    let board = Board::start_position();
    let rev = board.pieces().reverse();
    println!("{}", rev.to_string());
    let moves = board.generate_moves_for(&tables, Square::new(Square::A1));
    for m in moves {
        println!("{} -> {}", m.src().to_string(), m.dst().to_string());
    }
}

#[test]
fn start_position_moves_in_order() {
    let tables = init();
    let board = Board::start_position();
    let expected: Vec<(u8, u8, bool)> = vec![
        (0, 9, false),
        (2, 9, false),
        (2, 11, false),
        (4, 11, false),
        (4, 13, false),
        (6, 13, false),
        (6, 15, false),
        (8, 17, false),
        (10, 17, false),
        (10, 19, false),
        (12, 19, false),
        (12, 21, false),
        (14, 21, false),
        (14, 23, false),
        (16, 24, false),
        (16, 25, false),
        (18, 25, false),
        (18, 26, false),
        (18, 27, false),
        (20, 27, false),
        (20, 28, false),
        (20, 29, false),
        (22, 29, false),
        (22, 30, false),
        (22, 31, false),
        (0, 24, false),
        (2, 26, false),
        (4, 28, false),
        (6, 30, false),
    ];
    assert_eq!(all_moves(&board, &tables), expected);
    assert_eq!(triples(&board.generate_moves(&tables)), expected);
}

#[test]
fn start_position_has_no_captures() {
    let tables = init();
    let board = Board::start_position();
    let captures = board.generate_captures(&tables);
    assert!(captures.is_empty());
    assert_eq!(captures.len(), 0);
}

#[test]
fn moves_for_a_square_are_those_of_the_list() {
    let tables = init();
    let board = Board::start_position();
    let from_a1 = board.generate_moves_for(&tables, sq("a1"));
    assert_eq!(from_a1, vec![BitMove::make(sq("a1"), sq("b2")), BitMove::make(sq("a1"), sq("a4"))]);
    let from_c3 = board.generate_moves_for(&tables, sq("c3"));
    assert_eq!(
        from_c3,
        vec![
            BitMove::make(sq("c3"), sq("b4")),
            BitMove::make(sq("c3"), sq("c4")),
            BitMove::make(sq("c3"), sq("d4")),
        ]
    );
    assert!(board.generate_moves_for(&tables, sq("b8")).is_empty());
    assert!(board.generate_moves_for(&tables, sq("d5")).is_empty());
}

#[test]
fn every_class_of_move_in_generation_order() {
    let tables = init();
    let board = board_of(&["b2", "c3", "d4"], &["f6", "e4", "g7"], Some(("h1", "a8")), Color::White);
    let expected: Vec<(u8, u8, bool)> = vec![
        (27, 28, false),
        (27, 45, true),
        (27, 54, true),
        (9, 16, false),
        (9, 17, false),
        (18, 25, false),
        (18, 26, false),
        (27, 34, false),
        (27, 35, false),
        (27, 36, false),
        (9, 36, false),
        (27, 0, false),
        (27, 11, false),
        (27, 13, false),
    ];
    assert_eq!(all_moves(&board, &tables), expected);
    let captures = MoveGen::try_generate_captures(&board, &tables).expect("the captures fit");
    assert_eq!(triples(&captures), vec![(27, 28, false), (27, 45, true), (27, 54, true)]);
}

#[test]
fn black_moves_down_the_board() {
    let tables = init();
    let board = board_of(&["b2", "c3", "d4"], &["f6", "e4", "g7"], Some(("h1", "a8")), Color::Black);
    let expected: Vec<(u8, u8, bool)> = vec![
        (28, 27, false),
        (28, 19, false),
        (28, 20, false),
        (28, 21, false),
        (45, 36, false),
        (45, 37, false),
        (45, 38, false),
        (54, 46, false),
        (54, 47, false),
        (28, 42, false),
        (28, 44, false),
        (28, 46, false),
    ];
    assert_eq!(all_moves(&board, &tables), expected);
}

#[test]
fn ready_cannon_has_exactly_one_shot_at_its_target() {
    let tables = init();
    let board = board_of(&["d4", "c3", "b2"], &["f6"], None, Color::White);
    let moves = all_moves(&board, &tables);
    let shots: Vec<&(u8, u8, bool)> = moves.iter().filter(|m| m.2 && m.1 == 45).collect();
    assert_eq!(shots, vec![&(27u8, 45u8, true)]);
    assert!(!moves.iter().any(|m| !m.2 && m.1 == 45));
    assert_eq!(moves.iter().filter(|m| m.2).count(), 1);
}

#[test]
fn cannon_does_not_fire_with_a_blocked_mouth_or_a_short_barrel() {
    let tables = init();
    let blocked = board_of(&["d4", "c3", "b2"], &["f6", "e5"], None, Color::White);
    assert!(!all_moves(&blocked, &tables).iter().any(|m| m.2));
    let short = board_of(&["d4", "c3"], &["f6"], None, Color::White);
    assert!(!all_moves(&short, &tables).iter().any(|m| m.2));
    let own_blocker = board_of(&["d4", "c3", "b2", "e5"], &["f6"], None, Color::White);
    assert!(!all_moves(&own_blocker, &tables).iter().any(|m| m.2 && m.0 == 27));
}

#[test]
fn shot_and_side_step_can_take_the_castle() {
    let tables = init();
    let board = board_of(&["d4", "c3", "b2", "g8"], &[], Some(("h1", "h8")), Color::White);
    let moves = all_moves(&board, &tables);
    assert_eq!(moves[0], (62, 63, false));
    let aimed = board_of(&["e5", "d4", "c3"], &[], Some(("a1", "h8")), Color::White);
    let shots: Vec<(u8, u8, bool)> =
        all_moves(&aimed, &tables).into_iter().filter(|m| m.2).collect();
    assert_eq!(shots, vec![(36, 63, true)]);
}

#[test]
fn mirror_symmetry_of_the_start_position() {
    let tables = init();
    let white = Board::start_position();
    let mut black = Board::start_position();
    black.flip_side();
    let mut reflected: Vec<(u8, u8, bool)> =
        all_moves(&white, &tables).into_iter().map(|m| (63 - m.0, 63 - m.1, m.2)).collect();
    let mut mirrored = all_moves(&black, &tables);
    reflected.sort();
    mirrored.sort();
    assert_eq!(reflected.len(), 29);
    assert_eq!(reflected, mirrored);
}

#[test]
fn more_moves_than_a_list_holds_give_none() {
    let tables = init();
    let mut board = Board::new(Color::White);
    for rank in [0u8, 2, 4, 6] {
        for file in 0..8u8 {
            board.set(Color::White, Square::new(rank * 8 + file));
        }
    }
    assert!(MoveGen::try_generate(&board, &tables).is_none());
    assert!(MoveGen::try_generate_captures(&board, &tables).map(|l| l.is_empty()).unwrap_or(false));
    assert_eq!(board.generate_moves_for(&tables, sq("a1")).len(), 2);
}

#[test]
fn move_list_push_and_next() {
    let mut list = MoveList::default();
    assert!(list.is_empty());
    assert_eq!(MAX_MOVES, 64);
    let a = BitMove::make(sq("a1"), sq("a2"));
    let b = BitMove::make_shot(sq("c3"), sq("e5"));
    list.push(a);
    list.push(b);
    assert_eq!(list.len(), 2);
    assert!(!list.is_empty());
    assert_eq!(list.get(1), b);
    assert_eq!(list.next(), Some(a));
    assert_eq!(list.next(), Some(b));
    assert_eq!(list.next(), None);
    assert_eq!(list.next(), None);
    assert_eq!(list.len(), 2);
    let copy = MoveList::from_moves(&vec![b, a, b]);
    assert_eq!(triples(&copy), vec![(18, 36, true), (0, 8, false), (18, 36, true)]);
    assert!(MoveList::from_moves(&Vec::new()).is_empty());
}

#[test]
fn generated_moves_start_on_own_pieces() {
    let tables = init();
    let board = Board::start_position();
    let own: BitBoard = board.player_pieces();
    for (src, dst, _) in all_moves(&board, &tables) {
        assert!(own.contains(Square::new(src)));
        assert!(!own.contains(Square::new(dst)));
    }
}
