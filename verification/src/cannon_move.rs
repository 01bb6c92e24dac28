use vstd::prelude::*;
use core::cmp::Ordering;
use vstd::string::StringExecFns;
use crate::defs::{File, Rank};
use crate::square::{file_letter, file_of, rank_digit, rank_of, Square};

verus! {

/// A move packed into 16 bits: the source square in bits 0..6, the
/// destination square in bits 6..12 and the shot flag in bit 12.
#[derive(Copy, Clone, Debug, PartialEq, Eq, Structural)]
pub struct BitMove {
    pub data: u16,
}

/// The packed form of a move from `src` to `dst`.
pub open spec fn packed_move(src: int, dst: int, shot: bool) -> int {
    src + dst * 64 + if shot {
        4096int
    } else {
        0int
    }
}

impl Default for BitMove {
    fn default() -> (m: BitMove)
        ensures
            m.data == 0,
    {
        BitMove { data: 0 }
    }
}

impl BitMove {
    /// Number of the square the move starts from.
    pub open spec fn from(self) -> int {
        self.data as int % 64
    }

    /// Number of the square the move goes to, or shoots at.
    pub open spec fn to(self) -> int {
        (self.data as int / 64) % 64
    }

    /// Whether the move is a shot: the target is removed and the mover stays.
    pub open spec fn shot(self) -> bool {
        (self.data as int / 4096) % 2 == 1
    }

    /// The move from `src` to `dst` in its packed form.
    pub open spec fn of(src: int, dst: int, shot: bool) -> BitMove {
        BitMove { data: packed_move(src, dst, shot) as u16 }
    }

    /// Packing keeps the three parts of a move apart.
    pub proof fn lemma_of(src: int, dst: int, shot: bool)
        requires
            0 <= src < 64,
            0 <= dst < 64,
        ensures
            BitMove::of(src, dst, shot).from() == src,
            BitMove::of(src, dst, shot).to() == dst,
            BitMove::of(src, dst, shot).shot() == shot,
            BitMove::of(src, dst, shot).data == packed_move(src, dst, shot),
    {
    }

    /// The move with the packed form `m`.
    pub fn new(m: u16) -> (r: BitMove)
        ensures
            r.data == m,
    {
        BitMove { data: m }
    }

    /// The move that stands for "no move": from square 0 to square 0.
    pub fn null() -> (r: BitMove)
        ensures
            r.data == 0,
            r == BitMove::of(0, 0, false),
    {
        BitMove { data: 0 }
    }

    /// An ordinary move of the piece on `src` to `dst`.
    pub fn make(src: Square, dst: Square) -> (r: BitMove)
        requires
            src.wf(),
            dst.wf(),
        ensures
            r == BitMove::of(src.idx(), dst.idx(), false),
            r.from() == src.idx(),
            r.to() == dst.idx(),
            !r.shot(),
    {
        let s: u16 = src.0 as u16;
        let d: u16 = dst.0 as u16;
        BitMove { data: s + d * 64 }
    }

    /// A shot of the piece on `src` at `dst`.
    pub fn make_shot(src: Square, dst: Square) -> (r: BitMove)
        requires
            src.wf(),
            dst.wf(),
        ensures
            r == BitMove::of(src.idx(), dst.idx(), true),
            r.from() == src.idx(),
            r.to() == dst.idx(),
            r.shot(),
    {
        let s: u16 = src.0 as u16;
        let d: u16 = dst.0 as u16;
        BitMove { data: s + d * 64 + 4096 }
    }

    /// The square the move goes to, or shoots at.
    pub fn dst(self) -> (s: Square)
        ensures
            s.wf(),
            s.idx() == self.to(),
    {
        Square(self.dst_u8())
    }

    /// Number of the square the move goes to, or shoots at.
    pub fn dst_u8(self) -> (r: u8)
        ensures
            r < 64,
            r == self.to(),
    {
        ((self.data / 64) % 64) as u8
    }

    /// The square the move starts from.
    pub fn src(self) -> (s: Square)
        ensures
            s.wf(),
            s.idx() == self.from(),
    {
        Square(self.src_u8())
    }

    /// Number of the square the move starts from.
    pub fn src_u8(self) -> (r: u8)
        ensures
            r < 64,
            r == self.from(),
    {
        (self.data % 64) as u8
    }

    /// Rank of the destination.
    pub fn dst_rank(self) -> (r: Rank)
        ensures
            r.index() == rank_of(self.to()),
    {
        self.dst().rank()
    }

    /// File of the destination.
    pub fn dst_file(self) -> (f: File)
        ensures
            f.index() == file_of(self.to()),
    {
        self.dst().file()
    }

    /// Rank of the source.
    pub fn src_rank(self) -> (r: Rank)
        ensures
            r.index() == rank_of(self.from()),
    {
        self.src().rank()
    }

    /// File of the source.
    pub fn src_file(self) -> (f: File)
        ensures
            f.index() == file_of(self.from()),
    {
        self.src().file()
    }

    /// Whether the move is a shot.
    pub fn is_shot(self) -> (r: bool)
        ensures
            r == self.shot(),
    {
        (self.data / 4096) % 2 == 1
    }

    /// The move as text: source square, " -> ", destination square.
    pub fn to_string(&self) -> (s: String)
        ensures
            s@ == seq![
                file_letter(file_of(self.from())),
                rank_digit(rank_of(self.from())),
                ' ',
                '-',
                '>',
                ' ',
                file_letter(file_of(self.to())),
                rank_digit(rank_of(self.to())),
            ],
    {
        proof {
            reveal_strlit(" -> ");
        }
        let a: String = self.src().to_string();
        let b: String = self.dst().to_string();
        let s: String = a.concat(" -> ");
        let s: String = s.concat(b.as_str());
        assert(s@ =~= seq![
            file_letter(file_of(self.from())),
            rank_digit(rank_of(self.from())),
            ' ',
            '-',
            '>',
            ' ',
            file_letter(file_of(self.to())),
            rank_digit(rank_of(self.to())),
        ]);
        s
    }
}

/// A move together with the score that a search gave it.
#[derive(Copy, Clone, Debug)]
pub struct MoveWithScore {
    pub bit_move: BitMove,
    pub score: i16,
}

impl PartialEq for MoveWithScore {
    /// Two results are equal when their scores are, whatever their moves.
    fn eq(&self, other: &MoveWithScore) -> (r: bool) {
        self.score == other.score
    }
}

impl vstd::std_specs::cmp::PartialEqSpecImpl for MoveWithScore {
    open spec fn obeys_eq_spec() -> bool {
        true
    }

    open spec fn eq_spec(&self, other: &MoveWithScore) -> bool {
        self.score == other.score
    }
}

impl PartialOrd for MoveWithScore {
    /// Results are ordered by their scores.
    fn partial_cmp(&self, other: &MoveWithScore) -> (r: Option<Ordering>) {
        if self.score < other.score {
            Some(Ordering::Less)
        } else if self.score > other.score {
            Some(Ordering::Greater)
        } else {
            Some(Ordering::Equal)
        }
    }
}

impl vstd::std_specs::cmp::PartialOrdSpecImpl for MoveWithScore {
    open spec fn obeys_partial_cmp_spec() -> bool {
        true
    }

    open spec fn partial_cmp_spec(&self, other: &MoveWithScore) -> Option<Ordering> {
        if self.score < other.score {
            Some(Ordering::Less)
        } else if self.score > other.score {
            Some(Ordering::Greater)
        } else {
            Some(Ordering::Equal)
        }
    }
}

impl MoveWithScore {
    /// The score with its sign changed; the lowest value, which has no
    /// positive counterpart, stays as it is.
    pub open spec fn negated_score(self) -> int {
        if self.score == i16::MIN {
            i16::MIN as int
        } else {
            -(self.score as int)
        }
    }

    /// The move `m` with the score 0.
    pub fn new(m: BitMove) -> (r: MoveWithScore)
        ensures
            r.bit_move == m,
            r.score == 0,
    {
        MoveWithScore { bit_move: m, score: 0 }
    }

    /// The move `m` with the given score.
    pub fn new_with_score(m: BitMove, score: i16) -> (r: MoveWithScore)
        ensures
            r.bit_move == m,
            r.score == score,
    {
        MoveWithScore { bit_move: m, score }
    }

    /// The move.
    pub fn bitmove(self) -> (m: BitMove)
        ensures
            m == self.bit_move,
    {
        self.bit_move
    }

    /// The score.
    pub fn score(self) -> (s: i16)
        ensures
            s == self.score,
    {
        self.score
    }

    /// The same move seen from the opponent's side.
    pub fn negate(self) -> (r: MoveWithScore)
        ensures
            r.bit_move == self.bit_move,
            r.score == self.negated_score(),
    {
        let score: i16 = if self.score == i16::MIN {
            i16::MIN
        } else {
            -self.score
        };
        MoveWithScore { bit_move: self.bit_move, score }
    }

    /// The same score for the move `m`.
    pub fn fill_move(self, m: BitMove) -> (r: MoveWithScore)
        ensures
            r.bit_move == m,
            r.score == self.score,
    {
        MoveWithScore { bit_move: m, score: self.score }
    }

}

} // verus!
