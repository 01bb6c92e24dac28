use vstd::prelude::*;
use std::sync::Arc;
use crate::bitboard::BitBoard;
use crate::cannon_move::BitMove;
use crate::color::Color;
use crate::movegen::{MoveGen, MoveList, MAX_MOVES};
use crate::position::{Position, Undo};
use crate::rules::moves_of;
use crate::tables::Tables;
use crate::square::Square;
use crate::transposition::hash::{key_of, key_of_side, lemma_xor, side_key, SIDE};

verus! {

/// One link of a board's history: the move that led to the present state,
/// whether it took a piece, the hash of the present state, and the state
/// before that move, which boards cloned from one another share.
pub struct BoardState {
    pub prev_move: BitMove,
    pub prev_capture: bool,
    pub prev_state: Option<Arc<BoardState>>,
    pub hash: u64,
}

/// `Arc::clone`: another handle to the same shared state, which reads as the
/// same value.
#[verifier::external_body]
fn share(state: &Arc<BoardState>) -> (r: Arc<BoardState>)
    ensures
        r == *state,
{
    Arc::clone(state)
}

impl Default for BoardState {
    fn default() -> (s: BoardState)
        ensures
            s.prev_move.data == 0,
            !s.prev_capture,
            s.prev_state.is_none(),
            s.hash == 0,
    {
        BoardState { prev_move: BitMove::null(), prev_capture: false, prev_state: None, hash: 0 }
    }
}

impl BoardState {
    /// The moves that led to this state, oldest first.
    pub open spec fn trail(self) -> Seq<Undo>
        decreases self,
    {
        match self.prev_state {
            None => Seq::empty(),
            Some(p) => (*p).trail().push(Undo { mv: self.prev_move, capture: self.prev_capture }),
        }
    }

    /// Whether this state and the states before it are the history of `pos`:
    /// each holds the hash of its position, and each position is what taking
    /// back the last move of the one after it gives.
    pub open spec fn fits(self, pos: Position) -> bool
        decreases self,
    {
        &&& pos.wf()
        &&& self.hash == pos.hash()
        &&& pos.trail == self.trail()
        &&& match self.prev_state {
            None => self.prev_move.data == 0 && !self.prev_capture,
            Some(p) => pos.can_undo() && (*p).fits(pos.undo()),
        }
    }

    /// A state with the same hash and the same earlier states, and with no
    /// move of its own.
    pub fn partial_clone(&self) -> (r: BoardState)
        ensures
            r.prev_move.data == 0,
            !r.prev_capture,
            r.prev_state == self.prev_state,
            r.hash == self.hash,
    {
        BoardState {
            prev_move: BitMove::null(),
            prev_capture: false,
            prev_state: self.prev_state(),
            hash: self.hash,
        }
    }

    /// The state before the last move, if a move was made.
    pub fn prev_state(&self) -> (r: Option<Arc<BoardState>>)
        ensures
            r == self.prev_state,
    {
        match &self.prev_state {
            Some(p) => Some(share(p)),
            None => None,
        }
    }
}

/// A position of the game with its history.
pub struct Board {
    pieces: BitBoard,
    pieces_with_color: [BitBoard; 2],
    side_to_move: Color,
    castles: [BitBoard; 2],
    state: Arc<BoardState>,
}

impl View for Board {
    type V = Position;

    closed spec fn view(&self) -> Position {
        Position {
            white: self.pieces_with_color[0]@,
            black: self.pieces_with_color[1]@,
            white_castle: self.castles[0]@,
            black_castle: self.castles[1]@,
            side: self.side_to_move,
            trail: self.state.trail(),
        }
    }
}

impl Clone for Board {
    fn clone(&self) -> (b: Board)
        ensures
            b@ == self@,
            self.wf() ==> b.wf(),
    {
        self.shallow_clone()
    }
}

impl Board {
    /// The board's invariant: the combined occupancy is the union of the two
    /// colors, no square holds a piece of each, the hash is that of the
    /// position, and the history leads back move by move.
    pub closed spec fn wf(&self) -> bool {
        &&& self.pieces@ == self@.occupied()
        &&& (*self.state).fits(self@)
    }

    /// The position of the opening: twelve pieces a side in four columns of
    /// three, White's castle on h1, Black's on a8, White to move.
    pub open spec fn start() -> Position {
        Position {
            white: set![0int, 8, 16, 2, 10, 18, 4, 12, 20, 6, 14, 22],
            black: set![57int, 49, 41, 59, 51, 43, 61, 53, 45, 63, 55, 47],
            white_castle: set![7int],
            black_castle: set![56int],
            side: Color::White,
            trail: Seq::empty(),
        }
    }

    /// What the invariant says of the position.
    pub proof fn lemma_wf(&self)
        requires
            self.wf(),
        ensures
            self@.wf(),
            self@.trail.len() > 0 ==> self@.can_undo(),
    {
    }

    /// The empty board without castles, with `color` to move.
    pub fn new(color: Color) -> (b: Board)
        ensures
            b.wf(),
            b@ == (Position {
                white: Set::empty(),
                black: Set::empty(),
                white_castle: Set::empty(),
                black_castle: Set::empty(),
                side: color,
                trail: Seq::empty(),
            }),
    {
        let state = BoardState {
            prev_move: BitMove::null(),
            prev_capture: false,
            prev_state: None,
            hash: key_of_side(color),
        };
        let b = Board {
            pieces: BitBoard::empty(),
            pieces_with_color: [BitBoard::empty(), BitBoard::empty()],
            side_to_move: color,
            castles: [BitBoard::empty(), BitBoard::empty()],
            state: Arc::new(state),
        };
        proof {
            lemma_xor(side_key(color), 0, 0);
            crate::transposition::hash::lemma_pieces_hash_empty(128);
            assert(b@.white =~= Set::<int>::empty());
            assert(b@.black =~= Set::<int>::empty());
            assert(b.pieces@ =~= b@.occupied());
            assert(b@.trail =~= Seq::empty());
        }
        b
    }

    /// The board of the opening.
    pub fn start_position() -> (b: Board)
        ensures
            b.wf(),
            b@ == Board::start(),
    {
        let mut board = Board::new(Color::White);
        board.place_white();
        board.place_black();
        board.set_castle(Color::White, Square(Square::H1));
        board.set_castle(Color::Black, Square(Square::A8));
        assert(board@ =~= Board::start());
        board
    }

    /// Puts the twelve white pieces of the opening on a board that has none of them yet.
    fn place_white(&mut self)
        requires
            old(self).wf(),
            old(self)@.trail.len() == 0,
            old(self)@.white == Set::<int>::empty(),
            old(self)@.black == Set::<int>::empty(),
        ensures
            final(self).wf(),
            final(self)@ == (Position { white: Board::start().white, ..old(self)@ }),
    {
        self.set(Color::White, Square(Square::A1));
        assert(self@.white =~= set![0int]);
        assert(self@.black =~= old(self)@.black);
        self.set(Color::White, Square(Square::A2));
        assert(self@.white =~= set![0int, 8]);
        assert(self@.black =~= old(self)@.black);
        self.set(Color::White, Square(Square::A3));
        assert(self@.white =~= set![0int, 8, 16]);
        assert(self@.black =~= old(self)@.black);
        self.set(Color::White, Square(Square::C1));
        assert(self@.white =~= set![0int, 8, 16, 2]);
        assert(self@.black =~= old(self)@.black);
        self.set(Color::White, Square(Square::C2));
        assert(self@.white =~= set![0int, 8, 16, 2, 10]);
        assert(self@.black =~= old(self)@.black);
        self.set(Color::White, Square(Square::C3));
        assert(self@.white =~= set![0int, 8, 16, 2, 10, 18]);
        assert(self@.black =~= old(self)@.black);
        self.set(Color::White, Square(Square::E1));
        assert(self@.white =~= set![0int, 8, 16, 2, 10, 18, 4]);
        assert(self@.black =~= old(self)@.black);
        self.set(Color::White, Square(Square::E2));
        assert(self@.white =~= set![0int, 8, 16, 2, 10, 18, 4, 12]);
        assert(self@.black =~= old(self)@.black);
        self.set(Color::White, Square(Square::E3));
        assert(self@.white =~= set![0int, 8, 16, 2, 10, 18, 4, 12, 20]);
        assert(self@.black =~= old(self)@.black);
        self.set(Color::White, Square(Square::G1));
        assert(self@.white =~= set![0int, 8, 16, 2, 10, 18, 4, 12, 20, 6]);
        assert(self@.black =~= old(self)@.black);
        self.set(Color::White, Square(Square::G2));
        assert(self@.white =~= set![0int, 8, 16, 2, 10, 18, 4, 12, 20, 6, 14]);
        assert(self@.black =~= old(self)@.black);
        self.set(Color::White, Square(Square::G3));
        assert(self@.white =~= set![0int, 8, 16, 2, 10, 18, 4, 12, 20, 6, 14, 22]);
        assert(self@.black =~= old(self)@.black);
        assert(self@ =~= (Position { white: Board::start().white, ..old(self)@ }));
    }

    /// Puts the twelve black pieces of the opening on a board that has none of them yet.
    fn place_black(&mut self)
        requires
            old(self).wf(),
            old(self)@.trail.len() == 0,
            old(self)@.black == Set::<int>::empty(),
            old(self)@.white == Board::start().white,
        ensures
            final(self).wf(),
            final(self)@ == (Position { black: Board::start().black, ..old(self)@ }),
    {
        self.set(Color::Black, Square(Square::B8));
        assert(self@.black =~= set![57int]);
        assert(self@.white =~= old(self)@.white);
        self.set(Color::Black, Square(Square::B7));
        assert(self@.black =~= set![57int, 49]);
        assert(self@.white =~= old(self)@.white);
        self.set(Color::Black, Square(Square::B6));
        assert(self@.black =~= set![57int, 49, 41]);
        assert(self@.white =~= old(self)@.white);
        self.set(Color::Black, Square(Square::D8));
        assert(self@.black =~= set![57int, 49, 41, 59]);
        assert(self@.white =~= old(self)@.white);
        self.set(Color::Black, Square(Square::D7));
        assert(self@.black =~= set![57int, 49, 41, 59, 51]);
        assert(self@.white =~= old(self)@.white);
        self.set(Color::Black, Square(Square::D6));
        assert(self@.black =~= set![57int, 49, 41, 59, 51, 43]);
        assert(self@.white =~= old(self)@.white);
        self.set(Color::Black, Square(Square::F8));
        assert(self@.black =~= set![57int, 49, 41, 59, 51, 43, 61]);
        assert(self@.white =~= old(self)@.white);
        self.set(Color::Black, Square(Square::F7));
        assert(self@.black =~= set![57int, 49, 41, 59, 51, 43, 61, 53]);
        assert(self@.white =~= old(self)@.white);
        self.set(Color::Black, Square(Square::F6));
        assert(self@.black =~= set![57int, 49, 41, 59, 51, 43, 61, 53, 45]);
        assert(self@.white =~= old(self)@.white);
        self.set(Color::Black, Square(Square::H8));
        assert(self@.black =~= set![57int, 49, 41, 59, 51, 43, 61, 53, 45, 63]);
        assert(self@.white =~= old(self)@.white);
        self.set(Color::Black, Square(Square::H7));
        assert(self@.black =~= set![57int, 49, 41, 59, 51, 43, 61, 53, 45, 63, 55]);
        assert(self@.white =~= old(self)@.white);
        self.set(Color::Black, Square(Square::H6));
        assert(self@.black =~= set![57int, 49, 41, 59, 51, 43, 61, 53, 45, 63, 55, 47]);
        assert(self@.white =~= old(self)@.white);
        assert(self@ =~= (Position { black: Board::start().black, ..old(self)@ }));
    }

    /// A board with the same position. Its bitboards are copies; the history
    /// is shared with this board, and each of the two extends its own.
    pub fn shallow_clone(&self) -> (b: Board)
        ensures
            b@ == self@,
            self.wf() ==> b.wf(),
    {
        Board {
            pieces: self.pieces,
            pieces_with_color: self.pieces_with_color,
            side_to_move: self.side_to_move,
            castles: self.castles,
            state: share(&self.state),
        }
    }

    /// The squares that hold a piece.
    pub fn pieces(&self) -> (r: BitBoard)
        ensures
            self.wf() ==> r@ == self@.occupied(),
    {
        self.pieces
    }

    /// The squares that hold a piece or a castle.
    pub fn pieces_with_castles(&self) -> (r: BitBoard)
        ensures
            self.wf() ==> r@ == self@.occupied().union(self@.white_castle).union(
                self@.black_castle,
            ),
    {
        self.pieces.union(self.castles[0]).union(self.castles[1])
    }

    /// The squares that hold a piece of `color`.
    pub fn pieces_with_color(&self, color: Color) -> (r: BitBoard)
        ensures
            r@ == self@.pieces(color),
    {
        self.pieces_with_color[color.to_index()]
    }

    /// The castle square of `color`, as a board of at most one square.
    pub fn castle_with_color(&self, color: Color) -> (r: BitBoard)
        ensures
            r@ == self@.castle(color),
    {
        self.castles[color.to_index()]
    }

    /// The side that moves next.
    pub fn side_to_move(&self) -> (c: Color)
        ensures
            c == self@.side,
    {
        self.side_to_move
    }

    /// The pieces of the side to move.
    pub fn player_pieces(&self) -> (r: BitBoard)
        ensures
            r@ == self@.own(),
    {
        self.pieces_with_color(self.side_to_move())
    }

    /// The pieces of the side that is not to move.
    pub fn enemy_pieces(&self) -> (r: BitBoard)
        ensures
            r@ == self@.enemy(),
    {
        self.pieces_with_color(self.side_to_move().opposite())
    }

    /// The castle of the side that is not to move.
    pub fn enemy_castle(&self) -> (r: BitBoard)
        ensures
            r@ == self@.enemy_castle(),
    {
        self.castle_with_color(self.side_to_move.opposite())
    }

    /// The color of the piece on `square`, if there is one.
    pub fn color_on(&self, square: Square) -> (r: Option<Color>)
        requires
            square.wf(),
        ensures
            r == (if self@.white.contains(square.idx()) {
                Some(Color::White)
            } else if self@.black.contains(square.idx()) {
                Some(Color::Black)
            } else {
                None
            }),
    {
        if self.pieces_with_color(Color::White).contains(square) {
            Some(Color::White)
        } else if self.pieces_with_color(Color::Black).contains(square) {
            Some(Color::Black)
        } else {
            None
        }
    }

    /// Puts the castle of `color` on `square`, while the board is set up.
    pub fn set_castle(&mut self, color: Color, square: Square)
        requires
            old(self).wf(),
            square.wf(),
        ensures
            final(self).wf(),
            final(self)@ == (match color {
                Color::White => Position { white_castle: set![square.idx()], ..old(self)@ },
                Color::Black => Position { black_castle: set![square.idx()], ..old(self)@ },
            }),
    {
        proof {
            self.lemma_wf();
        }
        self.castles[color.to_index()] = BitBoard::from_square(square);
        proof {
            let after = match color {
                Color::White => Position { white_castle: set![square.idx()], ..old(self)@ },
                Color::Black => Position { black_castle: set![square.idx()], ..old(self)@ },
            };
            assert(self@ =~= after);
            Self::lemma_fits_castles(&self.state, old(self)@, self@);
        }
    }

    /// A history fits a position whatever its castles are.
    proof fn lemma_fits_castles(state: &BoardState, a: Position, b: Position)
        requires
            state.fits(a),
            b.wf(),
            b.white == a.white,
            b.black == a.black,
            b.side == a.side,
            b.trail == a.trail,
        ensures
            state.fits(b),
        decreases state,
    {
        match &state.prev_state {
            None => {},
            Some(p) => {
                assert(a.undo().white == b.undo().white);
                assert(a.undo().black == b.undo().black);
                Self::lemma_fits_castles(p, a.undo(), b.undo());
            },
        }
    }

    /// Puts a piece of `color` on `square` while the board is set up, before
    /// any move: the color's piece there is toggled, a piece of the other
    /// color there is taken off, and the hash follows.
    pub fn set(&mut self, color: Color, square: Square)
        requires
            old(self).wf(),
            square.wf(),
            old(self)@.trail.len() == 0,
        ensures
            final(self).wf(),
            final(self)@ == old(self)@.placed(color, square.idx()),
    {
        let them = color.opposite();
        let square_bb = BitBoard::from_square(square);
        let taken: bool = self.pieces_with_color[them.to_index()].contains(square);
        let mut hash: u64 = self.state.hash ^ key_of(color, square);
        if taken {
            hash = hash ^ key_of(them, square);
        }
        proof {
            self.lemma_wf();
            self@.lemma_placed_hash(color, square.idx());
            lemma_xor(hash, 0, 0);
            lemma_xor(self.state.hash, 0, 0);
        }
        let toggled = self.pieces_with_color[color.to_index()].toggle(square_bb);
        let cleared = self.pieces_with_color[them.to_index()].difference(square_bb);
        self.pieces_with_color[color.to_index()] = toggled;
        self.pieces_with_color[them.to_index()] = cleared;
        self.pieces = self.pieces_with_color[0].union(self.pieces_with_color[1]);
        let mut new_state = self.state.partial_clone();
        new_state.hash = hash;
        self.state = Arc::new(new_state);
        proof {
            let after = old(self)@.placed(color, square.idx());
            assert(self@.white =~= after.white);
            assert(self@.black =~= after.black);
            assert(self@.trail =~= after.trail);
            assert(self@ =~= after);
        }
    }

    /// Makes the move `m`, which must be one that can be made here, and
    /// records it in the history.
    pub fn apply_move(&mut self, m: BitMove)
        requires
            old(self).wf(),
            old(self)@.applicable(m),
        ensures
            final(self).wf(),
            final(self)@ == old(self)@.apply(m),
            final(self)@.undo() == old(self)@,
    {
        let us = self.side_to_move;
        let them = us.opposite();
        let src = m.src();
        let dst = m.dst();
        let src_bb = BitBoard::from_square(src);
        let dst_bb = BitBoard::from_square(dst);
        let capture: bool = self.pieces_with_color[them.to_index()].contains(dst);
        let mut hash: u64 = self.state.hash;
        proof {
            self.lemma_wf();
            self@.lemma_apply_hash(m);
            self@.lemma_apply_wf(m);
            self@.lemma_apply_undo(m);
            lemma_xor(hash, 0, 0);
        }
        if !m.is_shot() {
            let moved = self.pieces_with_color[us.to_index()].difference(src_bb).union(dst_bb);
            self.pieces_with_color[us.to_index()] = moved;
            hash = hash ^ (key_of(us, src) ^ key_of(us, dst));
        }
        proof {
            lemma_xor(hash, 0, 0);
        }
        if capture {
            hash = hash ^ key_of(them, dst);
        }
        let rest = self.pieces_with_color[them.to_index()].difference(dst_bb);
        self.pieces_with_color[them.to_index()] = rest;
        hash = hash ^ SIDE;
        self.pieces = self.pieces_with_color[0].union(self.pieces_with_color[1]);
        self.side_to_move = them;
        let new_state = BoardState {
            prev_move: m,
            prev_capture: capture,
            prev_state: Some(share(&self.state)),
            hash,
        };
        self.state = Arc::new(new_state);
        proof {
            let after = old(self)@.apply(m);
            assert(self@.white =~= after.white);
            assert(self@.black =~= after.black);
            assert(self@.trail =~= after.trail);
            assert(self@ =~= after);
        }
    }

    /// Whether a move was made that can be taken back.
    pub fn has_history(&self) -> (r: bool)
        ensures
            r == (self@.trail.len() > 0),
    {
        self.state.prev_state.is_some()
    }

    /// Takes back the last move: the exact inverse of `apply_move`.
    pub fn undo_move(&mut self)
        requires
            old(self).wf(),
            old(self)@.trail.len() > 0,
        ensures
            final(self).wf(),
            final(self)@ == old(self)@.undo(),
    {
        let victim = self.side_to_move;
        let mover = victim.opposite();
        let m = self.state.prev_move;
        let capture: bool = self.state.prev_capture;
        let src_bb = BitBoard::from_square(m.src());
        let dst_bb = BitBoard::from_square(m.dst());
        proof {
            self.lemma_wf();
        }
        if !m.is_shot() {
            let back = self.pieces_with_color[mover.to_index()].difference(dst_bb).union(src_bb);
            self.pieces_with_color[mover.to_index()] = back;
        }
        if capture {
            let restored = self.pieces_with_color[victim.to_index()].union(dst_bb);
            self.pieces_with_color[victim.to_index()] = restored;
        }
        self.pieces = self.pieces_with_color[0].union(self.pieces_with_color[1]);
        self.side_to_move = mover;
        match self.state.prev_state() {
            Some(p) => {
                self.state = p;
            },
            None => {},
        }
        proof {
            let before = old(self)@.undo();
            assert(self@.white =~= before.white);
            assert(self@.black =~= before.black);
            assert(self@ =~= before);
        }
    }

    /// All moves of the side to move, captures first, for a position that
    /// has no more of them than a list holds.
    pub fn generate_moves(&self, tables: &Tables) -> (l: MoveList)
        requires
            self.wf(),
            tables.wf(),
            moves_of(self@).len() <= MAX_MOVES,
        ensures
            l@ == moves_of(self@),
            l.wf(),
            l.idx == 0,
    {
        MoveGen::generate(self, tables)
    }

    /// The moves that land on an enemy piece or on the enemy castle, for a
    /// position that has no more of them than a list holds.
    pub fn generate_captures(&self, tables: &Tables) -> (l: MoveList)
        requires
            self.wf(),
            tables.wf(),
            moves_of(self@).filter(|m: BitMove| self@.captures(m)).len() <= MAX_MOVES,
        ensures
            l@ == moves_of(self@).filter(|m: BitMove| self@.captures(m)),
            l.wf(),
            l.idx == 0,
    {
        MoveGen::generate_captures(self, tables)
    }

    /// The moves of the piece on `sq`, in the order that they have among
    /// all moves; none if the side to move has no piece there.
    pub fn generate_moves_for(&self, tables: &Tables, sq: Square) -> (v: Vec<BitMove>)
        requires
            self.wf(),
            tables.wf(),
            sq.wf(),
        ensures
            v@ == moves_of(self@).filter(|m: BitMove| m.from() == sq.idx()),
    {
        MoveGen::generate_for(self, tables, sq)
    }

    /// Whether the last move made took a piece.
    pub fn last_capture(&self) -> (r: bool)
        requires
            self.wf(),
        ensures
            r == self@.last_capture(),
    {
        self.state.prev_capture
    }

    /// The last move made, or the null move where none was made.
    pub fn prev_move(&self) -> (m: BitMove)
        requires
            self.wf(),
        ensures
            m == self@.last_move(),
    {
        self.state.prev_move
    }

    /// Passes the move to the other side while the board is set up, before
    /// any move.
    pub fn flip_side(&mut self)
        requires
            old(self).wf(),
            old(self)@.trail.len() == 0,
        ensures
            final(self).wf(),
            final(self)@ == (Position { side: old(self)@.side.flipped(), ..old(self)@ }),
    {
        proof {
            self.lemma_wf();
            crate::transposition::hash::lemma_side_key_flip(self.side_to_move);
            lemma_xor(
                crate::transposition::hash::pieces_hash(self@.white, self@.black, 128),
                side_key(self.side_to_move),
                SIDE,
            );
        }
        self.side_to_move = self.side_to_move.opposite();
        let mut new_state = self.state.partial_clone();
        new_state.hash = new_state.hash ^ SIDE;
        self.state = Arc::new(new_state);
        proof {
            assert(self@ =~= (Position { side: old(self)@.side.flipped(), ..old(self)@ }));
        }
    }

    /// The hash of the position.
    pub fn hash(&self) -> (h: u64)
        requires
            self.wf(),
        ensures
            h == self@.hash(),
    {
        self.state.hash
    }
}

} // verus!
