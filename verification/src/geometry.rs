use vstd::prelude::*;
use crate::bitboard::BitBoard;
use crate::bits::{bit_at, lemma_bit_ops, lemma_bit_single};
use crate::color::Color;
use crate::square::{coords_on_board, file_of, on_board, rank_of, Square};

verus! {

/// Distance between two coordinates.
pub open spec fn abs_diff(a: int, b: int) -> int {
    if a >= b {
        a - b
    } else {
        b - a
    }
}

/// -1, 0 or 1 as `x` is negative, zero or positive.
pub open spec fn sign(x: int) -> int {
    if x < 0 {
        -1
    } else if x == 0 {
        0
    } else {
        1
    }
}

/// Chebyshev distance of two squares: the larger of the rank and file distances.
pub open spec fn distance(a: int, b: int) -> int {
    let dr = abs_diff(rank_of(a), rank_of(b));
    let df = abs_diff(file_of(a), file_of(b));
    if dr >= df {
        dr
    } else {
        df
    }
}

/// `t` is one of the up to three squares one rank ahead of `s` for `color`.
pub open spec fn in_front(color: Color, s: int, t: int) -> bool {
    on_board(s) && on_board(t) && rank_of(t) == rank_of(s) + color.step() && abs_diff(
        file_of(t),
        file_of(s),
    ) <= 1
}

/// `t` is the left or the right neighbour of `s`.
pub open spec fn beside(s: int, t: int) -> bool {
    on_board(s) && on_board(t) && rank_of(t) == rank_of(s) && abs_diff(file_of(t), file_of(s))
        == 1
}

/// `t` is one of the up to three squares two ranks behind `s` for `color`:
/// straight back, or two files to either side of that.
pub open spec fn in_retreat(color: Color, s: int, t: int) -> bool {
    on_board(s) && on_board(t) && rank_of(t) == rank_of(s) - 2 * color.step() && (abs_diff(
        file_of(t),
        file_of(s),
    ) == 0 || abs_diff(file_of(t), file_of(s)) == 2)
}

/// `t` lies on a diagonal through `s` and is not `s`.
pub open spec fn on_diagonal(s: int, t: int) -> bool {
    on_board(s) && on_board(t) && s != t && abs_diff(rank_of(s), rank_of(t)) == abs_diff(
        file_of(s),
        file_of(t),
    )
}

/// `t` lies on the rank or the file of `s` and is not `s`.
pub open spec fn on_orthogonal(s: int, t: int) -> bool {
    on_board(s) && on_board(t) && s != t && (rank_of(s) == rank_of(t) || file_of(s) == file_of(
        t,
    ))
}

/// `s` and `t` are different squares of one rank, file or diagonal.
pub open spec fn in_line(s: int, t: int) -> bool {
    on_diagonal(s, t) || on_orthogonal(s, t)
}

/// `t` lies strictly between `a` and `b` on their common line.
pub open spec fn is_between(a: int, b: int, t: int) -> bool {
    in_line(a, b) && in_line(a, t) && sign(rank_of(t) - rank_of(a)) == sign(
        rank_of(b) - rank_of(a),
    ) && sign(file_of(t) - file_of(a)) == sign(file_of(b) - file_of(a)) && distance(a, t)
        < distance(a, b)
}

/// Change of file of one step in compass direction `d`, numbered 0 to 7.
pub open spec fn dir_file(d: int) -> int {
    if d <= 2 {
        1
    } else if d <= 4 {
        0
    } else {
        -1
    }
}

/// Change of rank of one step in compass direction `d`, numbered 0 to 7.
pub open spec fn dir_rank(d: int) -> int {
    if d == 0 || d == 3 || d == 5 {
        1
    } else if d == 1 || d == 6 {
        0
    } else {
        -1
    }
}

/// `t` is the square `k` steps from `s` in direction `d` (backwards for a
/// negative `k`).
pub open spec fn offset(s: int, d: int, k: int, t: int) -> bool {
    on_board(s) && on_board(t) && rank_of(t) == rank_of(s) + k * dir_rank(d) && file_of(t)
        == file_of(s) + k * dir_file(d)
}

/// `t` is the square next to `s` in direction `d`, which a shot needs empty.
pub open spec fn is_blocker(s: int, d: int, t: int) -> bool {
    offset(s, d, 1, t)
}

/// `t` is one of the two squares behind `s`, seen in direction `d`, that
/// form the barrel of a cannon with `s` at its mouth. There is no barrel
/// where the second of them would be off the board.
pub open spec fn is_body(s: int, d: int, t: int) -> bool {
    coords_on_board(rank_of(s) - 2 * dir_rank(d), file_of(s) - 2 * dir_file(d)) && (offset(
        s,
        d,
        -1,
        t,
    ) || offset(s, d, -2, t))
}

/// `t` is two or three steps from `s` in direction `d`: where a shot lands.
pub open spec fn is_target(s: int, d: int, t: int) -> bool {
    offset(s, d, 2, t) || offset(s, d, 3, t)
}

/// The geometric relations between a square and the squares of a board that
/// the move rules are made of.
#[derive(Copy, Clone, Debug)]
pub enum Relation {
    Front(Color),
    Side,
    Retreat(Color),
    Ring(u8),
    Diagonal,
    Orthogonal,
    Between(Square),
    Blocker(u8),
    Body(u8),
    Target(u8),
}

impl Relation {
    /// Whether square `t` stands in this relation to square `s`.
    pub open spec fn holds(self, s: int, t: int) -> bool {
        match self {
            Relation::Front(c) => in_front(c, s, t),
            Relation::Side => beside(s, t),
            Relation::Retreat(c) => in_retreat(c, s, t),
            Relation::Ring(k) => on_board(s) && on_board(t) && distance(s, t) == k,
            Relation::Diagonal => on_diagonal(s, t),
            Relation::Orthogonal => on_orthogonal(s, t),
            Relation::Between(b) => is_between(s, b.idx(), t),
            Relation::Blocker(d) => is_blocker(s, d as int, t),
            Relation::Body(d) => is_body(s, d as int, t),
            Relation::Target(d) => is_target(s, d as int, t),
        }
    }

    /// The squares of the board that stand in this relation to `s`.
    pub open spec fn squares(self, s: int) -> Set<int> {
        Set::new(|t: int| on_board(t) && self.holds(s, t))
    }

    /// A relation is well formed when the square or direction that it names
    /// is on the board or among the eight directions.
    pub open spec fn wf(self) -> bool {
        match self {
            Relation::Between(b) => b.wf(),
            Relation::Blocker(d) => d < 8,
            Relation::Body(d) => d < 8,
            Relation::Target(d) => d < 8,
            _ => true,
        }
    }

    /// Decides the relation for two squares.
    pub fn related(self, s: Square, t: Square) -> (r: bool)
        requires
            self.wf(),
            s.wf(),
            t.wf(),
        ensures
            r == self.holds(s.idx(), t.idx()),
    {
        let sr: i16 = (s.0 / 8) as i16;
        let sf: i16 = (s.0 % 8) as i16;
        let tr: i16 = (t.0 / 8) as i16;
        let tf: i16 = (t.0 % 8) as i16;
        match self {
            Relation::Front(c) => tr == sr + forward_step(c) && gap(tf, sf) <= 1,
            Relation::Side => tr == sr && gap(tf, sf) == 1,
            Relation::Retreat(c) => tr == sr - 2 * forward_step(c) && (gap(tf, sf) == 0 || gap(
                tf,
                sf,
            ) == 2),
            Relation::Ring(k) => square_distance(s, t) as i16 == k as i16,
            Relation::Diagonal => s.0 != t.0 && gap(sr, tr) == gap(sf, tf),
            Relation::Orthogonal => s.0 != t.0 && (sr == tr || sf == tf),
            Relation::Between(b) => {
                let br: i16 = (b.0 / 8) as i16;
                let bf: i16 = (b.0 % 8) as i16;
                lined_up(s, b) && lined_up(s, t) && signum(tr - sr) == signum(br - sr) && signum(
                    tf - sf,
                ) == signum(bf - sf) && square_distance(s, t) < square_distance(s, b)
            },
            Relation::Blocker(d) => tr == sr + step_rank(d) && tf == sf + step_file(d),
            Relation::Body(d) => {
                let er: i16 = sr - 2 * step_rank(d);
                let ef: i16 = sf - 2 * step_file(d);
                0 <= er && er < 8 && 0 <= ef && ef < 8 && ((tr == sr - step_rank(d) && tf == sf
                    - step_file(d)) || (tr == er && tf == ef))
            },
            Relation::Target(d) => (tr == sr + 2 * step_rank(d) && tf == sf + 2 * step_file(d))
                || (tr == sr + 3 * step_rank(d) && tf == sf + 3 * step_file(d)),
        }
    }

    /// The squares that stand in this relation to `s`.
    pub fn row(self, s: Square) -> (r: BitBoard)
        requires
            self.wf(),
            s.wf(),
        ensures
            r@ == self.squares(s.idx()),
    {
        let mut bits: u64 = 0;
        let mut t: u8 = 0;
        proof {
            crate::bits::lemma_bit_lowest(0);
        }
        while t < 64
            invariant
                t <= 64,
                self.wf(),
                s.wf(),
                forall|i: int|
                    bit_at(bits, i) == (0 <= i < t && self.holds(s.idx(), i)),
            decreases 64 - t,
        {
            if self.related(s, Square(t)) {
                proof {
                    lemma_bit_ops(bits, 1u64 << (t as u64));
                    lemma_bit_single(t as int);
                }
                bits = bits | (1u64 << (t as u64));
            }
            t += 1;
        }
        let r = BitBoard(bits);
        assert(r@ =~= self.squares(s.idx()));
        r
    }
}

fn gap(a: i16, b: i16) -> (r: i16)
    requires
        -64 <= a <= 64,
        -64 <= b <= 64,
    ensures
        r == abs_diff(a as int, b as int),
{
    if a >= b {
        a - b
    } else {
        b - a
    }
}

fn signum(x: i16) -> (r: i16)
    ensures
        r == sign(x as int),
{
    if x < 0 {
        -1
    } else if x == 0 {
        0
    } else {
        1
    }
}

fn forward_step(color: Color) -> (r: i16)
    ensures
        r == color.step(),
{
    match color {
        Color::White => 1,
        Color::Black => -1,
    }
}

fn step_file(d: u8) -> (r: i16)
    ensures
        r == dir_file(d as int),
{
    if d <= 2 {
        1
    } else if d <= 4 {
        0
    } else {
        -1
    }
}

fn step_rank(d: u8) -> (r: i16)
    ensures
        r == dir_rank(d as int),
{
    if d == 0 || d == 3 || d == 5 {
        1
    } else if d == 1 || d == 6 {
        0
    } else {
        -1
    }
}

fn lined_up(s: Square, t: Square) -> (r: bool)
    requires
        s.wf(),
        t.wf(),
    ensures
        r == in_line(s.idx(), t.idx()),
{
    let sr: i16 = (s.0 / 8) as i16;
    let sf: i16 = (s.0 % 8) as i16;
    let tr: i16 = (t.0 / 8) as i16;
    let tf: i16 = (t.0 % 8) as i16;
    s.0 != t.0 && (gap(sr, tr) == gap(sf, tf) || sr == tr || sf == tf)
}

/// The compass direction, numbered 0 to 7, in which `dst` lies from `src`:
/// the direction whose step has the signs of the differences of file and
/// rank.
pub fn direction_to_index(src: Square, dst: Square) -> (d: usize)
    requires
        src.wf(),
        dst.wf(),
        src != dst,
    ensures
        d < 8,
        dir_file(d as int) == sign(file_of(dst.idx()) - file_of(src.idx())),
        dir_rank(d as int) == sign(rank_of(dst.idx()) - rank_of(src.idx())),
{
    let x: i16 = signum((dst.0 % 8) as i16 - (src.0 % 8) as i16);
    let y: i16 = signum((dst.0 / 8) as i16 - (src.0 / 8) as i16);
    if x == 1 {
        if y == 1 {
            0
        } else if y == 0 {
            1
        } else {
            2
        }
    } else if x == 0 {
        if y == 1 {
            3
        } else {
            4
        }
    } else {
        if y == 1 {
            5
        } else if y == 0 {
            6
        } else {
            7
        }
    }
}

/// Chebyshev distance of two squares.
pub fn square_distance(a: Square, b: Square) -> (r: u8)
    requires
        a.wf(),
        b.wf(),
    ensures
        r == distance(a.idx(), b.idx()),
        r <= 7,
{
    let dr: i16 = gap((a.0 / 8) as i16, (b.0 / 8) as i16);
    let df: i16 = gap((a.0 % 8) as i16, (b.0 % 8) as i16);
    if dr >= df {
        dr as u8
    } else {
        df as u8
    }
}

} // verus!
