use vstd::prelude::*;
use crate::bitboard::BitBoard;
use crate::color::Color;
use crate::geometry::{distance, square_distance, Relation};
use crate::square::Square;

verus! {

/// The color that the rows from `i * 64` on belong to in a table by color.
pub open spec fn color_of_row(i: int) -> Color {
    if i < 64 {
        Color::White
    } else {
        Color::Black
    }
}

/// The relation whose squares entry `i` of the table of fronts holds.
pub open spec fn front_entry(i: int) -> Relation {
    Relation::Front(color_of_row(i))
}

/// The relation whose squares entry `i` of the table of sides holds.
pub open spec fn side_entry(i: int) -> Relation {
    Relation::Side
}

/// The relation whose squares entry `i` of the table of retreats holds.
pub open spec fn retreat_entry(i: int) -> Relation {
    Relation::Retreat(color_of_row(i))
}

/// The relation whose squares entry `i` of the table of rings holds.
pub open spec fn ring_entry(i: int) -> Relation {
    Relation::Ring((i / 64 + 1) as u8)
}

/// The relation whose squares entry `i` of the table of diagonals holds.
pub open spec fn diagonal_entry(i: int) -> Relation {
    Relation::Diagonal
}

/// The relation whose squares entry `i` of the table of orthogonals holds.
pub open spec fn orthogonal_entry(i: int) -> Relation {
    Relation::Orthogonal
}

/// The relation whose squares entry `i` of the table of squares between two
/// squares holds: the row of the first square, with the second at `i % 64`.
pub open spec fn between_entry(i: int) -> Relation {
    Relation::Between(Square((i % 64) as u8))
}

/// The relation whose squares entry `i` of the table of shots holds: blockers
/// first, then bodies, then targets, each by direction and then by square.
pub open spec fn shot_entry(i: int) -> Relation {
    let d = ((i / 64) % 8) as u8;
    if i < 512 {
        Relation::Blocker(d)
    } else if i < 1024 {
        Relation::Body(d)
    } else {
        Relation::Target(d)
    }
}

/// The square that entry `i` of a table speaks of. The table of squares
/// between two squares is laid out by its first square; every other table
/// has its square last.
pub open spec fn square_of_entry(i: int, by_first: bool) -> int {
    if by_first {
        i / 64
    } else {
        i % 64
    }
}

/// `v` is a table of `len` entries, each holding the squares that stand in
/// the relation of that entry to the square of that entry.
pub open spec fn table_ok(
    v: Seq<BitBoard>,
    len: int,
    entry: spec_fn(int) -> Relation,
    by_first: bool,
) -> bool {
    v.len() == len && forall|i: int|
        0 <= i < len ==> (#[trigger] v[i])@ == entry(i).squares(square_of_entry(i, by_first))
}

/// `v` holds the distance of every pair of squares, at 64 times the first
/// square plus the second.
pub open spec fn distances_ok(v: Seq<u8>) -> bool {
    v.len() == 4096 && forall|i: int| 0 <= i < 4096 ==> (#[trigger] v[i]) == distance(i / 64, i % 64)
}

/// The precomputed masks of the board's geometry. They are built once and
/// only read afterwards.
pub struct Tables {
    front: Vec<BitBoard>,
    sides: Vec<BitBoard>,
    retreats: Vec<BitBoard>,
    distances: Vec<u8>,
    rings: Vec<BitBoard>,
    diagonals: Vec<BitBoard>,
    orthogonals: Vec<BitBoard>,
    between: Vec<BitBoard>,
    shots: Vec<BitBoard>,
}

impl Tables {
    /// Every entry of every table holds what the geometry says.
    pub closed spec fn wf(&self) -> bool {
        &&& table_ok(self.front@, 128, |i: int| front_entry(i), false)
        &&& table_ok(self.sides@, 128, |i: int| side_entry(i), false)
        &&& table_ok(self.retreats@, 128, |i: int| retreat_entry(i), false)
        &&& distances_ok(self.distances@)
        &&& table_ok(self.rings@, 448, |i: int| ring_entry(i), false)
        &&& table_ok(self.diagonals@, 64, |i: int| diagonal_entry(i), false)
        &&& table_ok(self.orthogonals@, 64, |i: int| orthogonal_entry(i), false)
        &&& table_ok(self.between@, 4096, |i: int| between_entry(i), true)
        &&& table_ok(self.shots@, 1536, |i: int| shot_entry(i), false)
    }
}

fn color_at(i: usize) -> (c: Color)
    ensures
        c == color_of_row(i as int),
{
    if i < 64 {
        Color::White
    } else {
        Color::Black
    }
}

/// Builds the table of the squares ahead of each square, for each color.
pub fn generate_front() -> (v: Vec<BitBoard>)
    ensures
        table_ok(v@, 128, |i: int| front_entry(i), false),
{
    let mut v: Vec<BitBoard> = Vec::new();
    let mut i: usize = 0;
    while i < 128
        invariant
            i <= 128,
            table_ok(v@, i as int, |i: int| front_entry(i), false),
        decreases 128 - i,
    {
        let row = Relation::Front(color_at(i)).row(Square((i % 64) as u8));
        v.push(row);
        i += 1;
    }
    v
}

/// Builds the table of the two side neighbours of each square, for each color.
pub fn generate_sides() -> (v: Vec<BitBoard>)
    ensures
        table_ok(v@, 128, |i: int| side_entry(i), false),
{
    let mut v: Vec<BitBoard> = Vec::new();
    let mut i: usize = 0;
    while i < 128
        invariant
            i <= 128,
            table_ok(v@, i as int, |i: int| side_entry(i), false),
        decreases 128 - i,
    {
        let row = Relation::Side.row(Square((i % 64) as u8));
        v.push(row);
        i += 1;
    }
    v
}

/// Builds the table of the squares that a piece on each square may retreat
/// to, for each color.
pub fn generate_retreats() -> (v: Vec<BitBoard>)
    ensures
        table_ok(v@, 128, |i: int| retreat_entry(i), false),
{
    let mut v: Vec<BitBoard> = Vec::new();
    let mut i: usize = 0;
    while i < 128
        invariant
            i <= 128,
            table_ok(v@, i as int, |i: int| retreat_entry(i), false),
        decreases 128 - i,
    {
        let row = Relation::Retreat(color_at(i)).row(Square((i % 64) as u8));
        v.push(row);
        i += 1;
    }
    v
}

/// Builds the table of the distances of all pairs of squares.
pub fn generate_distances() -> (v: Vec<u8>)
    ensures
        distances_ok(v@),
{
    let mut v: Vec<u8> = Vec::new();
    let mut i: usize = 0;
    while i < 4096
        invariant
            i <= 4096,
            v@.len() == i,
            forall|k: int| 0 <= k < i ==> (#[trigger] v@[k]) == distance(k / 64, k % 64),
        decreases 4096 - i,
    {
        let d: u8 = square_distance(Square((i / 64) as u8), Square((i % 64) as u8));
        v.push(d);
        i += 1;
    }
    v
}

/// Builds the table of the squares at each distance from 1 to 7 of each square.
pub fn generate_distance_rings() -> (v: Vec<BitBoard>)
    ensures
        table_ok(v@, 448, |i: int| ring_entry(i), false),
{
    let mut v: Vec<BitBoard> = Vec::new();
    let mut i: usize = 0;
    while i < 448
        invariant
            i <= 448,
            table_ok(v@, i as int, |i: int| ring_entry(i), false),
        decreases 448 - i,
    {
        let row = Relation::Ring((i / 64 + 1) as u8).row(Square((i % 64) as u8));
        v.push(row);
        i += 1;
    }
    v
}

/// Builds the table of the squares on the diagonals through each square.
pub fn generate_diagonals() -> (v: Vec<BitBoard>)
    ensures
        table_ok(v@, 64, |i: int| diagonal_entry(i), false),
{
    let mut v: Vec<BitBoard> = Vec::new();
    let mut i: usize = 0;
    while i < 64
        invariant
            i <= 64,
            table_ok(v@, i as int, |i: int| diagonal_entry(i), false),
        decreases 64 - i,
    {
        let row = Relation::Diagonal.row(Square(i as u8));
        v.push(row);
        i += 1;
    }
    v
}

/// Builds the table of the squares on the rank and the file of each square.
pub fn generate_orthogonals() -> (v: Vec<BitBoard>)
    ensures
        table_ok(v@, 64, |i: int| orthogonal_entry(i), false),
{
    let mut v: Vec<BitBoard> = Vec::new();
    let mut i: usize = 0;
    while i < 64
        invariant
            i <= 64,
            table_ok(v@, i as int, |i: int| orthogonal_entry(i), false),
        decreases 64 - i,
    {
        let row = Relation::Orthogonal.row(Square(i as u8));
        v.push(row);
        i += 1;
    }
    v
}

/// Builds the table of the squares strictly between each pair of squares of
/// one line; for other pairs the entry is empty.
pub fn generate_between() -> (v: Vec<BitBoard>)
    ensures
        table_ok(v@, 4096, |i: int| between_entry(i), true),
{
    let mut v: Vec<BitBoard> = Vec::new();
    let mut i: usize = 0;
    while i < 4096
        invariant
            i <= 4096,
            table_ok(v@, i as int, |i: int| between_entry(i), true),
        decreases 4096 - i,
    {
        let row = Relation::Between(Square((i % 64) as u8)).row(Square((i / 64) as u8));
        v.push(row);
        i += 1;
    }
    v
}

/// Builds the three tables of a shot by direction and square: the blocker
/// square, the barrel behind the shooter, and the squares where it lands.
pub fn generate_shots() -> (v: Vec<BitBoard>)
    ensures
        table_ok(v@, 1536, |i: int| shot_entry(i), false),
{
    let mut v: Vec<BitBoard> = Vec::new();
    let mut i: usize = 0;
    while i < 1536
        invariant
            i <= 1536,
            table_ok(v@, i as int, |i: int| shot_entry(i), false),
        decreases 1536 - i,
    {
        let d: u8 = ((i / 64) % 8) as u8;
        let relation = if i < 512 {
            Relation::Blocker(d)
        } else if i < 1024 {
            Relation::Body(d)
        } else {
            Relation::Target(d)
        };
        let row = relation.row(Square((i % 64) as u8));
        v.push(row);
        i += 1;
    }
    v
}

/// Builds all tables.
pub fn init() -> (tables: Tables)
    ensures
        tables.wf(),
{
    Tables {
        front: generate_front(),
        sides: generate_sides(),
        retreats: generate_retreats(),
        distances: generate_distances(),
        rings: generate_distance_rings(),
        diagonals: generate_diagonals(),
        orthogonals: generate_orthogonals(),
        between: generate_between(),
        shots: generate_shots(),
    }
}

/// The up to three squares one rank ahead of `square` for `color`.
pub fn front(tables: &Tables, color: Color, square: Square) -> (r: BitBoard)
    requires
        tables.wf(),
        square.wf(),
    ensures
        r@ == Relation::Front(color).squares(square.idx()),
{
    let i: usize = color.to_index() * 64 + square.to_index();
    assert(i % 64 == square.idx() && color_of_row(i as int) == color);
    let r = tables.front[i];
    assert(r@ == front_entry(i as int).squares(square_of_entry(i as int, false)));
    r
}

/// The left and right neighbours of `square`.
pub fn sides(tables: &Tables, color: Color, square: Square) -> (r: BitBoard)
    requires
        tables.wf(),
        square.wf(),
    ensures
        r@ == Relation::Side.squares(square.idx()),
{
    let i: usize = color.to_index() * 64 + square.to_index();
    assert(i % 64 == square.idx() && color_of_row(i as int) == color);
    let r = tables.sides[i];
    assert(r@ == side_entry(i as int).squares(square_of_entry(i as int, false)));
    r
}

/// The up to three squares two ranks behind `square` for `color`.
pub fn retreats(tables: &Tables, color: Color, square: Square) -> (r: BitBoard)
    requires
        tables.wf(),
        square.wf(),
    ensures
        r@ == Relation::Retreat(color).squares(square.idx()),
{
    let i: usize = color.to_index() * 64 + square.to_index();
    assert(i % 64 == square.idx() && color_of_row(i as int) == color);
    let r = tables.retreats[i];
    assert(r@ == retreat_entry(i as int).squares(square_of_entry(i as int, false)));
    r
}

/// Chebyshev distance of the squares numbered `from` and `to`.
pub fn distance_index(tables: &Tables, from: usize, to: usize) -> (r: u8)
    requires
        tables.wf(),
        from < 64,
        to < 64,
    ensures
        r == distance(from as int, to as int),
        r <= 7,
{
    let i: usize = from * 64 + to;
    assert(i / 64 == from && i % 64 == to);
    tables.distances[i]
}

/// Chebyshev distance of two squares.
pub fn distance_square(tables: &Tables, from: Square, to: Square) -> (r: u8)
    requires
        tables.wf(),
        from.wf(),
        to.wf(),
    ensures
        r == distance(from.idx(), to.idx()),
        r <= 7,
{
    distance_index(tables, from.to_index(), to.to_index())
}

/// The squares at distance exactly `dist` of `square`.
pub fn distance_ring(tables: &Tables, square: Square, dist: usize) -> (r: BitBoard)
    requires
        tables.wf(),
        square.wf(),
        0 < dist <= 7,
    ensures
        r@ == Relation::Ring(dist as u8).squares(square.idx()),
{
    let i: usize = (dist - 1) * 64 + square.to_index();
    assert(i % 64 == square.idx() && i / 64 + 1 == dist);
    let r = tables.rings[i];
    assert(r@ == ring_entry(i as int).squares(square_of_entry(i as int, false)));
    r
}

/// The squares at distance exactly `dist` of `src` on its rank, file and
/// diagonals.
pub fn distance_dir_ring(tables: &Tables, src: Square, dist: usize) -> (r: BitBoard)
    requires
        tables.wf(),
        src.wf(),
        0 < dist <= 7,
    ensures
        r@ == Relation::Ring(dist as u8).squares(src.idx()).intersect(
            Relation::Diagonal.squares(src.idx()).union(Relation::Orthogonal.squares(src.idx())),
        ),
{
    distance_ring(tables, src, dist).intersect(
        diagonals(tables, src).union(orthogonals(tables, src)),
    )
}

/// The squares on the diagonals through `square`.
pub fn diagonals(tables: &Tables, square: Square) -> (r: BitBoard)
    requires
        tables.wf(),
        square.wf(),
    ensures
        r@ == Relation::Diagonal.squares(square.idx()),
{
    let i: usize = square.to_index();
    let r = tables.diagonals[i];
    assert(r@ == diagonal_entry(i as int).squares(square_of_entry(i as int, false)));
    r
}

/// The squares on the rank and the file of `square`.
pub fn orthogonals(tables: &Tables, square: Square) -> (r: BitBoard)
    requires
        tables.wf(),
        square.wf(),
    ensures
        r@ == Relation::Orthogonal.squares(square.idx()),
{
    let i: usize = square.to_index();
    let r = tables.orthogonals[i];
    assert(r@ == orthogonal_entry(i as int).squares(square_of_entry(i as int, false)));
    r
}

/// The squares strictly between `src` and `dst`; none unless the two share a
/// rank, file or diagonal.
pub fn between(tables: &Tables, src: Square, dst: Square) -> (r: BitBoard)
    requires
        tables.wf(),
        src.wf(),
        dst.wf(),
    ensures
        r@ == Relation::Between(dst).squares(src.idx()),
{
    let i: usize = src.to_index() * 64 + dst.to_index();
    assert(i / 64 == src.idx() && i % 64 == dst.idx());
    assert(Square((i % 64) as u8) == dst);
    let r = tables.between[i];
    assert(r@ == between_entry(i as int).squares(square_of_entry(i as int, true)));
    r
}

/// The square next to `src` in direction `dir` that a shot needs empty.
pub fn shot_blocker(tables: &Tables, src: Square, dir: usize) -> (r: BitBoard)
    requires
        tables.wf(),
        src.wf(),
        dir < 8,
    ensures
        r@ == Relation::Blocker(dir as u8).squares(src.idx()),
{
    let i: usize = dir * 64 + src.to_index();
    assert(i % 64 == src.idx() && (i / 64) % 8 == dir);
    let r = tables.shots[i];
    assert(r@ == shot_entry(i as int).squares(square_of_entry(i as int, false)));
    r
}

/// The two squares behind `src` that a shot in direction `dir` needs
/// occupied by the shooter's own pieces.
pub fn shot_body(tables: &Tables, src: Square, dir: usize) -> (r: BitBoard)
    requires
        tables.wf(),
        src.wf(),
        dir < 8,
    ensures
        r@ == Relation::Body(dir as u8).squares(src.idx()),
{
    let i: usize = 512 + dir * 64 + src.to_index();
    assert(i % 64 == src.idx() && (i / 64) % 8 == dir);
    let r = tables.shots[i];
    assert(r@ == shot_entry(i as int).squares(square_of_entry(i as int, false)));
    r
}

/// The squares two and three steps from `src` in direction `dir`.
pub fn shot_targets(tables: &Tables, src: Square, dir: usize) -> (r: BitBoard)
    requires
        tables.wf(),
        src.wf(),
        dir < 8,
    ensures
        r@ == Relation::Target(dir as u8).squares(src.idx()),
{
    let i: usize = 1024 + dir * 64 + src.to_index();
    assert(i % 64 == src.idx() && (i / 64) % 8 == dir);
    let r = tables.shots[i];
    assert(r@ == shot_entry(i as int).squares(square_of_entry(i as int, false)));
    r
}

} // verus!
