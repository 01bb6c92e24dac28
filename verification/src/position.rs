use vstd::prelude::*;
use crate::cannon_move::BitMove;
use crate::color::Color;
use crate::transposition::hash::{
    flip_member, lemma_hash_flip_piece, lemma_side_key_flip, piece_key, pieces_hash,
    position_hash, side_key, SIDE,
};

verus! {

/// What is kept of a move that was made, so that it can be taken back.
pub struct Undo {
    pub mv: BitMove,
    pub capture: bool,
}

/// The mathematical content of a board: where the pieces and the castles
/// stand, who is to move, and the moves that led here, oldest first.
#[verifier::ext_equal]
pub struct Position {
    pub white: Set<int>,
    pub black: Set<int>,
    pub white_castle: Set<int>,
    pub black_castle: Set<int>,
    pub side: Color,
    pub trail: Seq<Undo>,
}

impl Position {
    /// The squares that hold a piece of `color`.
    pub open spec fn pieces(self, color: Color) -> Set<int> {
        match color {
            Color::White => self.white,
            Color::Black => self.black,
        }
    }

    /// The castle square of `color`, as a set of at most one square.
    pub open spec fn castle(self, color: Color) -> Set<int> {
        match color {
            Color::White => self.white_castle,
            Color::Black => self.black_castle,
        }
    }

    /// The squares that hold a piece of the side to move.
    pub open spec fn own(self) -> Set<int> {
        self.pieces(self.side)
    }

    /// The squares that hold a piece of the side that is not to move.
    pub open spec fn enemy(self) -> Set<int> {
        self.pieces(self.side.flipped())
    }

    /// The castle of the side that is not to move.
    pub open spec fn enemy_castle(self) -> Set<int> {
        self.castle(self.side.flipped())
    }

    /// The squares that hold a piece of either color.
    pub open spec fn occupied(self) -> Set<int> {
        self.white.union(self.black)
    }

    /// The same position with the pieces of `color` on the squares `s`.
    pub open spec fn with_pieces(self, color: Color, s: Set<int>) -> Position {
        match color {
            Color::White => Position { white: s, ..self },
            Color::Black => Position { black: s, ..self },
        }
    }

    /// All pieces and castles stand on squares of the board, and no square
    /// holds a piece of each color.
    pub open spec fn wf(self) -> bool {
        &&& forall|i: int| self.white.contains(i) ==> 0 <= i < 64
        &&& forall|i: int| self.black.contains(i) ==> 0 <= i < 64
        &&& forall|i: int| self.white_castle.contains(i) ==> 0 <= i < 64
        &&& forall|i: int| self.black_castle.contains(i) ==> 0 <= i < 64
        &&& self.white.disjoint(self.black)
    }

    /// The position's hash: XOR of the keys of the pieces on the board and
    /// of the side key when Black is to move.
    pub open spec fn hash(self) -> u64 {
        position_hash(self.white, self.black, self.side)
    }

    /// Whether the last move made took a piece; false where no move was made.
    pub open spec fn last_capture(self) -> bool {
        self.trail.len() > 0 && self.trail.last().capture
    }

    /// The last move made, or the null move where none was made.
    pub open spec fn last_move(self) -> BitMove {
        if self.trail.len() > 0 {
            self.trail.last().mv
        } else {
            BitMove { data: 0 }
        }
    }

    /// The position after `color` got a piece on the empty square `s` while
    /// the board is set up, or lost the one it had there; a piece of the
    /// other color on `s` is taken off.
    pub open spec fn placed(self, color: Color, s: int) -> Position {
        self.with_pieces(color, flip_member(self.pieces(color), s)).with_pieces(
            color.flipped(),
            self.pieces(color.flipped()).remove(s),
        )
    }

    /// Whether `m` can be made here: its squares differ, and unless it is a
    /// shot it takes a piece of the side to move to a square that holds none
    /// of that side.
    pub open spec fn applicable(self, m: BitMove) -> bool {
        m.from() != m.to() && (m.shot() || (self.own().contains(m.from()) && !self.own().contains(
            m.to(),
        )))
    }

    /// Whether `m` lands on the castle of the side that is not to move.
    pub open spec fn wins(self, m: BitMove) -> bool {
        self.enemy_castle().contains(m.to())
    }

    /// Whether `m` lands on a piece or on the castle of the side that is not
    /// to move.
    pub open spec fn captures(self, m: BitMove) -> bool {
        self.enemy().contains(m.to()) || self.enemy_castle().contains(m.to())
    }

    /// The position after `m`. A shot takes the piece on the target square
    /// off and leaves the shooter where it is. Any other move takes the
    /// mover to its destination and takes a piece of the other side that
    /// stands there off. Either way the move passes to the other side.
    pub open spec fn apply(self, m: BitMove) -> Position {
        let capture = self.enemy().contains(m.to());
        let moved = if m.shot() {
            self
        } else {
            self.with_pieces(self.side, self.own().remove(m.from()).insert(m.to()))
        };
        Position {
            side: self.side.flipped(),
            trail: self.trail.push(Undo { mv: m, capture }),
            ..moved.with_pieces(self.side.flipped(), self.enemy().remove(m.to()))
        }
    }

    /// Whether the last move can be taken back: there is one, and the board
    /// looks as that move left it.
    pub open spec fn can_undo(self) -> bool {
        &&& self.trail.len() > 0
        &&& {
            let u = self.trail.last();
            let mover = self.side.flipped();
            &&& u.mv.from() != u.mv.to()
            &&& !self.pieces(self.side).contains(u.mv.to())
            &&& u.mv.shot() ==> (u.capture ==> !self.pieces(mover).contains(u.mv.to()))
            &&& !u.mv.shot() ==> (self.pieces(mover).contains(u.mv.to()) && !self.occupied().contains(
                u.mv.from(),
            ))
        }
    }

    /// The position before the last move: the mover is back where it came
    /// from, a piece that was taken is back on the board, and the move is
    /// with the side that made the last move.
    pub open spec fn undo(self) -> Position {
        let u = self.trail.last();
        let mover = self.side.flipped();
        let victims = if u.capture {
            self.pieces(self.side).insert(u.mv.to())
        } else {
            self.pieces(self.side)
        };
        let moved = if u.mv.shot() {
            self
        } else {
            self.with_pieces(mover, self.pieces(mover).remove(u.mv.to()).insert(u.mv.from()))
        };
        Position { side: mover, trail: self.trail.drop_last(), ..moved.with_pieces(self.side, victims) }
    }

    /// The position after the moves `ms`, made one after the other.
    pub open spec fn apply_all(self, ms: Seq<BitMove>) -> Position
        decreases ms.len(),
    {
        if ms.len() == 0 {
            self
        } else {
            self.apply_all(ms.drop_last()).apply(ms.last())
        }
    }

    /// The position after the last `n` moves were taken back.
    pub open spec fn undo_all(self, n: nat) -> Position
        decreases n,
    {
        if n == 0 {
            self
        } else {
            self.undo().undo_all((n - 1) as nat)
        }
    }

    /// Whether each of the moves `ms` can be made in the position that the
    /// moves before it lead to.
    pub open spec fn all_applicable(self, ms: Seq<BitMove>) -> bool
        decreases ms.len(),
    {
        ms.len() > 0 ==> self.all_applicable(ms.drop_last()) && self.apply_all(
            ms.drop_last(),
        ).applicable(ms.last())
    }

    /// A move that can be made leaves a well-formed position, in which it can
    /// be taken back.
    pub proof fn lemma_apply_wf(self, m: BitMove)
        requires
            self.wf(),
            self.applicable(m),
        ensures
            self.apply(m).wf(),
            self.apply(m).can_undo(),
    {
    }

    /// Taking back a move that was made gives the position before it: the
    /// same pieces, castles and side to move, the same earlier moves, and so
    /// the same hash.
    pub proof fn lemma_apply_undo(self, m: BitMove)
        requires
            self.wf(),
            self.applicable(m),
        ensures
            self.apply(m).undo() == self,
            self.apply(m).undo().hash() == self.hash(),
    {
        let after = self.apply(m);
        let back = after.undo();
        assert(after.trail.drop_last() =~= self.trail);
        assert(back.white =~= self.white);
        assert(back.black =~= self.black);
        assert(back =~= self);
    }

    /// Making any number of moves and taking them back in reverse order
    /// gives the position before them, with its hash, its pieces and its side
    /// to move.
    pub proof fn lemma_round_trip(self, ms: Seq<BitMove>)
        requires
            self.wf(),
            self.all_applicable(ms),
        ensures
            self.apply_all(ms).wf(),
            self.apply_all(ms).undo_all(ms.len()) == self,
            self.apply_all(ms).undo_all(ms.len()).hash() == self.hash(),
        decreases ms.len(),
    {
        if ms.len() > 0 {
            let before = self.apply_all(ms.drop_last());
            self.lemma_round_trip(ms.drop_last());
            before.lemma_apply_wf(ms.last());
            before.lemma_apply_undo(ms.last());
        }
    }

    /// The hash after a move, from the hash before it: the keys of the mover
    /// on its two squares unless the move is a shot, the key of a piece that
    /// was taken, and the side key.
    pub proof fn lemma_apply_hash(self, m: BitMove)
        requires
            self.wf(),
            self.applicable(m),
            0 <= m.from() < 64,
            0 <= m.to() < 64,
        ensures
            self.apply(m).hash() == self.hash() ^ (if m.shot() {
                0
            } else {
                piece_key(self.side, m.from()) ^ piece_key(self.side, m.to())
            }) ^ (if self.enemy().contains(m.to()) {
                piece_key(self.side.flipped(), m.to())
            } else {
                0
            }) ^ SIDE,
    {
        let them = self.side.flipped();
        let start = self;
        // the mover leaves its square
        let lifted = if m.shot() {
            start
        } else {
            start.with_pieces(self.side, flip_member(start.pieces(self.side), m.from()))
        };
        // and arrives
        let landed = if m.shot() {
            lifted
        } else {
            lifted.with_pieces(self.side, flip_member(lifted.pieces(self.side), m.to()))
        };
        // the piece that stood there is taken
        let taken = if self.enemy().contains(m.to()) {
            landed.with_pieces(them, flip_member(landed.pieces(them), m.to()))
        } else {
            landed
        };
        let h0 = pieces_hash(start.white, start.black, 128);
        let k1 = piece_key(self.side, m.from());
        let k2 = piece_key(self.side, m.to());
        let k3 = piece_key(them, m.to());
        if !m.shot() {
            lemma_hash_flip_piece(start.white, start.black, self.side, m.from());
            lemma_hash_flip_piece(lifted.white, lifted.black, self.side, m.to());
        }
        if self.enemy().contains(m.to()) {
            lemma_hash_flip_piece(landed.white, landed.black, them, m.to());
        }
        let after = self.apply(m);
        assert(after.white =~= taken.white);
        assert(after.black =~= taken.black);
        lemma_side_key_flip(self.side);
        let sk = side_key(self.side);
        if m.shot() {
            if self.enemy().contains(m.to()) {
                assert((h0 ^ k3) ^ (sk ^ SIDE) == (((h0 ^ sk) ^ 0) ^ k3) ^ SIDE) by (bit_vector);
            } else {
                assert(h0 ^ (sk ^ SIDE) == (((h0 ^ sk) ^ 0) ^ 0) ^ SIDE) by (bit_vector);
            }
        } else {
            if self.enemy().contains(m.to()) {
                assert((((h0 ^ k1) ^ k2) ^ k3) ^ (sk ^ SIDE) == (((h0 ^ sk) ^ (k1 ^ k2)) ^ k3)
                    ^ SIDE) by (bit_vector);
            } else {
                assert(((h0 ^ k1) ^ k2) ^ (sk ^ SIDE) == (((h0 ^ sk) ^ (k1 ^ k2)) ^ 0) ^ SIDE)
                    by (bit_vector);
            }
        }
    }

    /// The hash after a piece was put on the board during set-up.
    pub proof fn lemma_placed_hash(self, color: Color, s: int)
        requires
            self.wf(),
            0 <= s < 64,
        ensures
            self.placed(color, s).wf(),
            self.placed(color, s).hash() == self.hash() ^ piece_key(color, s) ^ (if self.pieces(
                color.flipped(),
            ).contains(s) {
                piece_key(color.flipped(), s)
            } else {
                0
            }),
    {
        let them = color.flipped();
        let toggled = self.with_pieces(color, flip_member(self.pieces(color), s));
        let cleared = if self.pieces(them).contains(s) {
            toggled.with_pieces(them, flip_member(toggled.pieces(them), s))
        } else {
            toggled
        };
        lemma_hash_flip_piece(self.white, self.black, color, s);
        if self.pieces(them).contains(s) {
            lemma_hash_flip_piece(toggled.white, toggled.black, them, s);
        }
        let after = self.placed(color, s);
        assert(after.white =~= cleared.white);
        assert(after.black =~= cleared.black);
        let h0 = pieces_hash(self.white, self.black, 128);
        let k1 = piece_key(color, s);
        let k2 = piece_key(them, s);
        let sk = side_key(self.side);
        if self.pieces(them).contains(s) {
            assert(((h0 ^ k1) ^ k2) ^ sk == ((h0 ^ sk) ^ k1) ^ k2) by (bit_vector);
        } else {
            assert((h0 ^ k1) ^ sk == ((h0 ^ sk) ^ k1) ^ 0) by (bit_vector);
        }
    }
}

} // verus!
