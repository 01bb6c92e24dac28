use vstd::prelude::*;
use vstd::set_lib::*;
use crate::bitboard::BitBoard;
use crate::bits::mirrored_bit;
use crate::board::Board;
use crate::color::Color;
use crate::geometry::{abs_diff, distance, Relation};
use crate::position::Position;
use crate::square::{file_of, rank_of, Square};
use crate::tables::{distance_ring, distance_square, Tables};

verus! {

/// What one piece is worth.
pub const PIECE_VALUE: i16 = 8;

/// No evaluation is further from zero than this.
pub const EVAL_LIMIT: i16 = 3000;

/// Whether `i` is the lowest square of `s`.
pub open spec fn is_least(s: Set<int>, i: int) -> bool {
    s.contains(i) && forall|j: int| s.contains(j) ==> i <= j
}

/// The lowest square of `s`, or square 63 where `s` is empty.
pub open spec fn first_square(s: Set<int>) -> int {
    if exists|i: int| is_least(s, i) {
        choose|i: int| is_least(s, i)
    } else {
        63
    }
}

/// The squares of `s` seen from the other side of the board.
pub open spec fn mirrored(s: Set<int>) -> Set<int> {
    Set::new(|i: int| 0 <= i < 64 && s.contains(mirrored_bit(i)))
}

/// The highest rank, counted from 1, that a piece of `mask` below square
/// `n` reaches on `file` or on a file next to it; 0 where there is none.
pub open spec fn column_height(mask: Set<int>, file: int, n: int) -> int
    decreases n,
{
    if n <= 0 {
        0
    } else {
        let h = column_height(mask, file, n - 1);
        let s = n - 1;
        if mask.contains(s) && abs_diff(file_of(s), file) <= 1 && rank_of(s) + 1 > h {
            rank_of(s) + 1
        } else {
            h
        }
    }
}

/// Sum of the column heights of the files below `files`.
pub open spec fn area_upto(mask: Set<int>, files: int) -> int
    decreases files,
{
    if files <= 0 {
        0
    } else {
        area_upto(mask, files - 1) + column_height(mask, files - 1, 64)
    }
}

/// The ground that the pieces of `mask` hold: the sum over the files of how
/// far up the pieces on and next to each file reach.
pub open spec fn area_of(mask: Set<int>) -> int {
    area_upto(mask, 8)
}

/// For the pieces of both sides below square `n`: how many more own than
/// enemy pieces stand next to each of them, summed up.
pub open spec fn surround_upto(me: Set<int>, enemy: Set<int>, n: int) -> int
    decreases n,
{
    if n <= 0 {
        0
    } else {
        let s = n - 1;
        surround_upto(me, enemy, n - 1) + if me.contains(s) || enemy.contains(s) {
            me.intersect(Relation::Ring(1).squares(s)).len() - enemy.intersect(
                Relation::Ring(1).squares(s),
            ).len()
        } else {
            0
        }
    }
}

/// What a piece on `s` loses for being far from both castles: its distance
/// to its own castle, or one less than that to the enemy castle if that is
/// less, as far as it is above 3.
pub open spec fn far_penalty(s: int, my_castle: int, enemy_castle: int) -> int {
    let own = distance(s, my_castle);
    let other = distance(s, enemy_castle) - 1;
    let d = (if own <= other {
        own
    } else {
        other
    }) - 3;
    if d > 0 {
        d
    } else {
        0
    }
}

/// The penalties of the pieces of `mask` below square `n`, as a score.
pub open spec fn castle_distance_upto(
    mask: Set<int>,
    my_castle: int,
    enemy_castle: int,
    n: int,
) -> int
    decreases n,
{
    if n <= 0 {
        0
    } else {
        castle_distance_upto(mask, my_castle, enemy_castle, n - 1) - if mask.contains(n - 1) {
            far_penalty(n - 1, my_castle, enemy_castle)
        } else {
            0
        }
    }
}

/// Half of `x`, rounded towards zero.
pub open spec fn half(x: int) -> int {
    if x >= 0 {
        x / 2
    } else {
        -((-x) / 2)
    }
}

/// The static score of a position for the side to move: eight points for
/// each piece more than the enemy has, the difference of the ground held,
/// half the difference of pieces standing next to pieces, and the
/// difference of the penalties for pieces far from the castles.
pub open spec fn eval_of(pos: Position) -> int {
    let me = pos.own();
    let enemy = pos.enemy();
    let my_castle = first_square(pos.castle(pos.side));
    let enemy_castle = first_square(pos.enemy_castle());
    let pc = me.len() - enemy.len();
    let area = match pos.side {
        Color::White => area_of(me) - area_of(mirrored(enemy)),
        Color::Black => area_of(mirrored(me)) - area_of(enemy),
    };
    let surround = half(surround_upto(me, enemy, 64));
    let castles = castle_distance_upto(me, my_castle, enemy_castle, 64) - castle_distance_upto(
        enemy,
        enemy_castle,
        my_castle,
        64,
    );
    PIECE_VALUE * pc + area + surround + castles
}

proof fn lemma_column_height_bound(mask: Set<int>, file: int, n: int)
    requires
        0 <= n <= 64,
    ensures
        0 <= column_height(mask, file, n) <= 8,
    decreases n,
{
    if n > 0 {
        lemma_column_height_bound(mask, file, n - 1);
    }
}

proof fn lemma_area_bound(mask: Set<int>, files: int)
    requires
        0 <= files <= 8,
    ensures
        0 <= area_upto(mask, files) <= 8 * files,
    decreases files,
{
    if files > 0 {
        lemma_area_bound(mask, files - 1);
        lemma_column_height_bound(mask, files - 1, 64);
    }
}

/// A set of squares of the board has at most 64 squares.
proof fn lemma_board_set(s: Set<int>)
    requires
        forall|i: int| s.contains(i) ==> 0 <= i < 64,
    ensures
        s.finite(),
        s.len() <= 64,
{
    let range = set_int_range(0, 64);
    lemma_int_range(0, 64);
    assert(s.subset_of(range));
    lemma_len_subset(s, range);
}

proof fn lemma_surround_bound(me: Set<int>, enemy: Set<int>, n: int)
    requires
        0 <= n <= 64,
        forall|i: int| me.contains(i) ==> 0 <= i < 64,
        forall|i: int| enemy.contains(i) ==> 0 <= i < 64,
    ensures
        -64 * n <= surround_upto(me, enemy, n) <= 64 * n,
    decreases n,
{
    if n > 0 {
        lemma_surround_bound(me, enemy, n - 1);
        let ring = Relation::Ring(1).squares(n - 1);
        lemma_board_set(me.intersect(ring));
        lemma_board_set(enemy.intersect(ring));
    }
}

proof fn lemma_castle_distance_bound(mask: Set<int>, my_castle: int, enemy_castle: int, n: int)
    requires
        0 <= n <= 64,
        0 <= my_castle < 64,
        0 <= enemy_castle < 64,
    ensures
        -4 * n <= castle_distance_upto(mask, my_castle, enemy_castle, n) <= 0,
    decreases n,
{
    if n > 0 {
        lemma_castle_distance_bound(mask, my_castle, enemy_castle, n - 1);
    }
}

proof fn lemma_first_square_on_board(s: Set<int>)
    requires
        forall|i: int| s.contains(i) ==> 0 <= i < 64,
    ensures
        0 <= first_square(s) < 64,
{
}

/// The static score of a well-formed position is within the limit.
pub proof fn lemma_eval_bound(pos: Position)
    requires
        pos.wf(),
    ensures
        -EVAL_LIMIT <= eval_of(pos) <= EVAL_LIMIT,
{
    let me = pos.own();
    let enemy = pos.enemy();
    let my_castle = first_square(pos.castle(pos.side));
    let enemy_castle = first_square(pos.enemy_castle());
    lemma_board_set(me);
    lemma_board_set(enemy);
    lemma_first_square_on_board(pos.castle(pos.side));
    lemma_first_square_on_board(pos.enemy_castle());
    lemma_area_bound(me, 8);
    lemma_area_bound(enemy, 8);
    lemma_area_bound(mirrored(me), 8);
    lemma_area_bound(mirrored(enemy), 8);
    lemma_surround_bound(me, enemy, 64);
    lemma_castle_distance_bound(me, my_castle, enemy_castle, 64);
    lemma_castle_distance_bound(enemy, enemy_castle, my_castle, 64);
}

proof fn lemma_first_square(b: BitBoard, s: Square)
    requires
        b@.len() > 0 ==> b.lowest_is(s.idx()),
        b@.len() == 0 ==> s.idx() == 63,
    ensures
        s.idx() == first_square(b@),
{
    b.lemma_view();
    b.lemma_empty();
    if b@.len() > 0 {
        assert(is_least(b@, s.idx()));
    } else {
        assert(b@ =~= Set::<int>::empty());
    }
}

/// The static score of the position of `board` for the side to move.
pub fn eval(board: &Board, tables: &Tables) -> (score: i16)
    requires
        board.wf(),
        tables.wf(),
    ensures
        score == eval_of(board@),
        -EVAL_LIMIT <= score <= EVAL_LIMIT,
{
    let me = board.player_pieces();
    let my_castle_set = board.castle_with_color(board.side_to_move());
    let my_castle = my_castle_set.to_square();
    let enemy = board.enemy_pieces();
    let enemy_castle_set = board.enemy_castle();
    let enemy_castle = enemy_castle_set.to_square();
    proof {
        lemma_first_square(my_castle_set, my_castle);
        lemma_first_square(enemy_castle_set, enemy_castle);
    }
    let pc: i16 = piece_count(me) - piece_count(enemy);
    let ground: i16 = match board.side_to_move() {
        Color::White => {
            let theirs = enemy.reverse();
            assert(theirs@ =~= mirrored(enemy@));
            area(me) - area(theirs)
        },
        Color::Black => {
            let mine = me.reverse();
            assert(mine@ =~= mirrored(me@));
            area(mine) - area(enemy)
        },
    };
    let around: i16 = surround(tables, me, enemy);
    let near: i16 = if around >= 0 {
        around / 2
    } else {
        -((-around) / 2)
    };
    let far: i16 = castle_distance(tables, me, my_castle, enemy_castle) - castle_distance(
        tables,
        enemy,
        enemy_castle,
        my_castle,
    );
    PIECE_VALUE * pc + ground + near + far
}

fn piece_count(mask: BitBoard) -> (n: i16)
    ensures
        n == mask@.len(),
        0 <= n <= 64,
{
    mask.count_bits() as i16
}

fn surround(tables: &Tables, me: BitBoard, enemy: BitBoard) -> (score: i16)
    requires
        tables.wf(),
    ensures
        score == surround_upto(me@, enemy@, 64),
        -4096 <= score <= 4096,
{
    let mut score: i16 = 0;
    let combined = me.union(enemy);
    let mut s: u8 = 0;
    while s < 64
        invariant
            tables.wf(),
            s <= 64,
            combined@ == me@.union(enemy@),
            score == surround_upto(me@, enemy@, s as int),
            -64 * s <= score <= 64 * s,
        decreases 64 - s,
    {
        let sq = Square(s);
        if combined.contains(sq) {
            let ring = distance_ring(tables, sq, 1);
            let mine: i16 = me.intersect(ring).count_bits() as i16;
            let theirs: i16 = enemy.intersect(ring).count_bits() as i16;
            score = score + (mine - theirs);
        }
        s += 1;
    }
    score
}

fn castle_distance(tables: &Tables, mask: BitBoard, my_castle: Square, enemy_castle: Square) -> (score:
    i16)
    requires
        tables.wf(),
        my_castle.wf(),
        enemy_castle.wf(),
    ensures
        score == castle_distance_upto(mask@, my_castle.idx(), enemy_castle.idx(), 64),
        -256 <= score <= 0,
{
    let mut score: i16 = 0;
    let mut s: u8 = 0;
    while s < 64
        invariant
            tables.wf(),
            my_castle.wf(),
            enemy_castle.wf(),
            s <= 64,
            score == castle_distance_upto(mask@, my_castle.idx(), enemy_castle.idx(), s as int),
            -4 * s <= score <= 0,
        decreases 64 - s,
    {
        let sq = Square(s);
        if mask.contains(sq) {
            let own: i16 = distance_square(tables, sq, my_castle) as i16;
            let other: i16 = distance_square(tables, sq, enemy_castle) as i16 - 1;
            let d: i16 = (if own <= other {
                own
            } else {
                other
            }) - 3;
            if d > 0 {
                score = score - d;
            }
        }
        s += 1;
    }
    score
}

fn area(mask: BitBoard) -> (total: i16)
    ensures
        total == area_of(mask@),
        0 <= total <= 64,
{
    let mut heights: [u8; 8] = [0;8];
    let mut s: u8 = 0;
    while s < 64
        invariant
            s <= 64,
            forall|f: int| 0 <= f < 8 ==> #[trigger] heights[f] == column_height(mask@, f, s as int),
        decreases 64 - s,
    {
        let sq = Square(s);
        if mask.contains(sq) {
            let rank: u8 = s / 8 + 1;
            let file: usize = (s % 8) as usize;
            let left: usize = if file == 0 {
                0
            } else {
                file - 1
            };
            let right: usize = if file == 7 {
                7
            } else {
                file + 1
            };
            if heights[file] < rank {
                heights[file] = rank;
            }
            if heights[left] < rank {
                heights[left] = rank;
            }
            if heights[right] < rank {
                heights[right] = rank;
            }
        }
        s += 1;
    }
    let mut total: i16 = 0;
    let mut f: usize = 0;
    while f < 8
        invariant
            f <= 8,
            forall|g: int| 0 <= g < 8 ==> #[trigger] heights[g] == column_height(mask@, g, 64),
            total == area_upto(mask@, f as int),
            0 <= total <= 8 * f,
        decreases 8 - f,
    {
        proof {
            lemma_column_height_bound(mask@, f as int, 64);
        }
        total = total + heights[f] as i16;
        f += 1;
    }
    total
}

} // verus!
