use vstd::prelude::*;
use vek::Vec2;

verus! {

/// A position on a grid, or the size of one: a column `x` and a row `y`.
#[derive(Copy, Clone, Debug, PartialEq, Eq, Structural)]
pub struct Point {
    pub x: i32,
    pub y: i32,
}

/// Whether the coordinate `e` lies within an extent of `sz`.
pub open spec fn coordinate_within(e: int, sz: int) -> bool {
    0 <= e < sz
}

/// Whether `pos` is a position of a grid of size `size`.
pub open spec fn in_bounds(pos: Point, size: Point) -> bool {
    coordinate_within(pos.x as int, size.x as int) && coordinate_within(
        pos.y as int,
        size.y as int,
    )
}

/// The place of the cell at `pos` among the cells of a grid of size `size`,
/// which are kept row by row.
pub open spec fn cell_index(pos: Point, size: Point) -> int {
    pos.y * size.x + pos.x
}

/// The position of the cell with number `i` in a grid `width` columns wide.
pub open spec fn cell_position(i: int, width: int) -> Point {
    Point { x: (i % width) as i32, y: (i / width) as i32 }
}

fn is_within(e: i32, sz: i32) -> (r: bool)
    ensures
        r == coordinate_within(e as int, sz as int),
{
    e >= 0 && e < sz
}

/// `vek::Vec2::product`: the product of the two components of a vector,
/// here those of a size. An overflowing product is left out.
#[verifier::external_body]
fn product(size: Point) -> (r: i32)
    requires
        i32::MIN <= size.x * size.y <= i32::MAX,
    ensures
        r == size.x * size.y,
{
    Vec2::new(size.x, size.y).product()
}

/// `vek::Vec2::map2`: the vector of what a function makes of the first
/// components of two vectors and of their second components; here the
/// function is the test that a coordinate lies within an extent.
#[verifier::external_body]
fn within_each(pos: Point, size: Point) -> (r: (bool, bool))
    ensures
        r.0 == coordinate_within(pos.x as int, size.x as int),
        r.1 == coordinate_within(pos.y as int, size.y as int),
{
    let v = Vec2::new(pos.x, pos.y).map2(Vec2::new(size.x, size.y), |e, sz| is_within(e, sz));
    (v.x, v.y)
}

/// `vek::Vec2::<bool>::reduce_and`: whether both components are true.
#[verifier::external_body]
fn both(a: bool, b: bool) -> (r: bool)
    ensures
        r == (a && b),
{
    Vec2::new(a, b).reduce_and()
}

/// A rectangle of cells that is addressed by column and row.
pub struct Grid<T> {
    cells: Vec<T>,
    size: Point,
}

impl<T> View for Grid<T> {
    type V = Seq<T>;

    /// The cells of the grid, row by row.
    closed spec fn view(&self) -> Seq<T> {
        self.cells@
    }
}

/// A cell of each position exists, and the place of every cell fits the
/// type of a coordinate.
proof fn lemma_cell_index(pos: Point, size: Point)
    requires
        in_bounds(pos, size),
    ensures
        0 <= cell_index(pos, size) < size.x * size.y,
        0 <= pos.y * size.x <= cell_index(pos, size),
{
    assert(pos.y * size.x <= (size.y - 1) * size.x) by (nonlinear_arith)
        requires
            0 <= pos.y <= size.y - 1,
            0 < size.x,
    ;
    assert(0 <= pos.y * size.x) by (nonlinear_arith)
        requires
            0 <= pos.y,
            0 < size.x,
    ;
    assert((size.y - 1) * size.x == size.y * size.x - size.x) by (nonlinear_arith);
    assert(size.x * size.y == size.y * size.x) by (nonlinear_arith);
}

impl<T> core::ops::Index<Point> for Grid<T> {
    type Output = T;

    /// The cell at a position of the grid.
    fn index(&self, index: Point) -> (cell: &T)
        ensures
            *cell == self@[cell_index(index, self.dims())],
    {
        self.get(index).unwrap()
    }
}

impl<T> vstd::std_specs::core::IndexSpecImpl<Point> for Grid<T> {
    /// Only a position of the grid has a cell.
    open spec fn index_req(&self, index: &Point) -> bool {
        self.wf() && in_bounds(*index, self.dims())
    }
}

impl<T> Grid<T> {
    /// The size that the grid was made with.
    pub closed spec fn dims(&self) -> Point {
        self.size
    }

    /// A grid of a positive width and height has one cell for each of its
    /// positions, and no more cells than the type of a coordinate counts.
    pub closed spec fn wf(&self) -> bool {
        self.size.x > 0 && self.size.y > 0 ==> self.cells@.len() == self.size.x * self.size.y
            && self.size.x * self.size.y <= i32::MAX
    }

    /// The grid of the given size whose cell at each position is what `f`
    /// returns for that position.
    pub fn populate_with<F: Fn(Point) -> T>(size: Point, f: F) -> (g: Grid<T>)
        requires
            size.x * size.y <= i32::MAX,
            forall|p: Point| in_bounds(p, size) ==> f.requires((p,)),
        ensures
            g.wf(),
            g.dims() == size,
            size.x > 0 && size.y > 0 ==> g@.len() == size.x * size.y,
            forall|p: Point|
                in_bounds(p, size) ==> f.ensures((p,), #[trigger] g@[cell_index(p, size)]),
    {
        let mut cells: Vec<T> = Vec::new();
        if size.x <= 0 || size.y <= 0 {
            return Grid { cells, size };
        }
        let mut y: i32 = 0;
        while y < size.y
            invariant
                0 <= y <= size.y,
                0 < size.x,
                size.x * size.y <= i32::MAX,
                forall|p: Point| in_bounds(p, size) ==> f.requires((p,)),
                cells@.len() == y * size.x,
                forall|p: Point|
                    in_bounds(p, size) && p.y < y ==> f.ensures(
                        (p,),
                        #[trigger] cells@[cell_index(p, size)],
                    ),
            decreases size.y - y,
        {
            let mut x: i32 = 0;
            while x < size.x
                invariant
                    0 <= x <= size.x,
                    0 <= y < size.y,
                    size.x * size.y <= i32::MAX,
                    forall|p: Point| in_bounds(p, size) ==> f.requires((p,)),
                    cells@.len() == y * size.x + x,
                    forall|p: Point|
                        in_bounds(p, size) && (p.y < y || (p.y == y && p.x < x)) ==> f.ensures(
                            (p,),
                            #[trigger] cells@[cell_index(p, size)],
                        ),
                decreases size.x - x,
            {
                let here = Point { x, y };
                let ghost before = cells@;
                proof {
                    assert(in_bounds(here, size));
                    lemma_cell_index(here, size);
                    assert forall|p: Point|
                        in_bounds(p, size) && (p.y < y || (p.y == y && p.x < x)) implies 0
                        <= cell_index(p, size) < before.len() by {
                        lemma_cell_index(p, size);
                        if p.y < y {
                            assert(p.y * size.x + size.x <= y * size.x) by (nonlinear_arith)
                                requires
                                    p.y + 1 <= y,
                                    0 < size.x,
                            ;
                        }
                    }
                }
                cells.push(f(here));
                x += 1;
            }
            proof {
                assert((y + 1) * size.x == y * size.x + size.x) by (nonlinear_arith);
            }
            y += 1;
        }
        proof {
            assert(size.y * size.x == size.x * size.y) by (nonlinear_arith);
        }
        Grid { cells, size }
    }

    /// The grid of the given size with a clone of `default` in every cell.
    pub fn new(size: Point, default: T) -> (g: Grid<T>) where T: Clone
        requires
            0 <= size.x * size.y <= i32::MAX,
        ensures
            g.wf(),
            g.dims() == size,
            g@.len() == size.x * size.y,
            forall|i: int| 0 <= i < g@.len() ==> cloned(default, #[trigger] g@[i]),
    {
        let count: usize = product(size) as usize;
        Grid { cells: vec![default; count], size }
    }

    /// The place of the cell at `pos` among the cells, if `pos` is a
    /// position of the grid.
    fn idx(&self, pos: Point) -> (r: Option<usize>)
        requires
            self.wf(),
        ensures
            r.is_some() == in_bounds(pos, self.dims()),
            r matches Some(i) ==> i == cell_index(pos, self.dims()) && i < self@.len(),
    {
        let (in_x, in_y) = within_each(pos, self.size);
        if both(in_x, in_y) {
            proof {
                lemma_cell_index(pos, self.size);
            }
            Some((pos.y * self.size.x + pos.x) as usize)
        } else {
            None
        }
    }

    /// The size that the grid was made with.
    pub fn size(&self) -> (s: Point)
        ensures
            s == self.dims(),
    {
        self.size
    }

    /// The cell at `pos`, if `pos` is a position of the grid.
    pub fn get(&self, pos: Point) -> (r: Option<&T>)
        requires
            self.wf(),
        ensures
            r.is_some() == in_bounds(pos, self.dims()),
            r matches Some(cell) ==> *cell == self@[cell_index(pos, self.dims())],
    {
        match self.idx(pos) {
            Some(i) => Some(&self.cells[i]),
            None => None,
        }
    }

    /// A clone of the cell at `pos`, if `pos` is a position of the grid.
    pub fn get_cloned(&self, pos: Point) -> (r: Option<T>) where T: Clone
        requires
            self.wf(),
        ensures
            r.is_some() == in_bounds(pos, self.dims()),
            r matches Some(cell) ==> cloned(self@[cell_index(pos, self.dims())], cell),
    {
        match self.get(pos) {
            Some(t) => Some(t.clone()),
            None => None,
        }
    }

    /// The cell at `pos` for writing, if `pos` is a position of the grid.
    /// What is written there becomes the cell; nothing else changes.
    pub fn get_mut(&mut self, pos: Point) -> (r: Option<&mut T>)
        requires
            old(self).wf(),
        ensures
            final(self).wf(),
            final(self).dims() == old(self).dims(),
            r.is_some() == in_bounds(pos, old(self).dims()),
            match r {
                Some(cell) => *cell == old(self)@[cell_index(pos, old(self).dims())]
                    && final(self)@ == old(self)@.update(
                    cell_index(pos, old(self).dims()),
                    *final(cell),
                ),
                None => final(self)@ == old(self)@,
            },
    {
        match self.idx(pos) {
            Some(i) => Some(&mut self.cells[i]),
            None => None,
        }
    }

    /// Puts `cell` at `pos` and returns what was there; a `pos` off the grid
    /// changes nothing.
    pub fn set(&mut self, pos: Point, cell: T) -> (r: Option<T>)
        requires
            old(self).wf(),
        ensures
            final(self).wf(),
            final(self).dims() == old(self).dims(),
            r.is_some() == in_bounds(pos, old(self).dims()),
            r matches Some(was) ==> was == old(self)@[cell_index(pos, old(self).dims())]
                && final(self)@ == old(self)@.update(cell_index(pos, old(self).dims()), cell)
                && final(self)@[cell_index(pos, old(self).dims())] == cell,
            r.is_none() ==> final(self)@ == old(self)@,
    {
        match self.idx(pos) {
            Some(i) => {
                let mut cell = cell;
                core::mem::swap(&mut self.cells[i], &mut cell);
                Some(cell)
            },
            None => None,
        }
    }

    /// The position of the cell with number `i`, counted row by row.
    pub fn position_of(&self, i: usize) -> (p: Point)
        requires
            self.wf(),
            self.dims().x > 0,
            self.dims().y > 0,
            i < self@.len(),
        ensures
            p == cell_position(i as int, self.dims().x as int),
            in_bounds(p, self.dims()),
            cell_index(p, self.dims()) == i,
    {
        let w: i32 = self.size.x;
        let n: i32 = i as i32;
        proof {
            let width = self.size.x as int;
            let height = self.size.y as int;
            assert(0 <= (i as int) / width < height) by (nonlinear_arith)
                requires
                    0 <= i < width * height,
                    0 < width,
            ;
            assert(i == width * ((i as int) / width) + (i as int) % width) by (nonlinear_arith)
                requires
                    0 < width,
            ;
            assert(width * ((i as int) / width) == ((i as int) / width) * width)
                by (nonlinear_arith);
        }
        Point { x: n % w, y: n / w }
    }

    /// The cells with their positions, row by row.
    pub fn iter(&self) -> (v: Vec<(Point, &T)>)
        requires
            self.wf(),
            self@.len() == 0 || (self.dims().x > 0 && self.dims().y > 0),
        ensures
            v@.len() == self@.len(),
            forall|i: int|
                0 <= i < v@.len() ==> (#[trigger] v@[i]).0 == cell_position(
                    i,
                    self.dims().x as int,
                ) && *v@[i].1 == self@[i],
    {
        let mut out: Vec<(Point, &T)> = Vec::new();
        let mut i: usize = 0;
        while i < self.cells.len()
            invariant
                self.wf(),
                self@.len() == 0 || (self.dims().x > 0 && self.dims().y > 0),
                i <= self@.len(),
                out@.len() == i,
                forall|k: int|
                    0 <= k < i ==> (#[trigger] out@[k]).0 == cell_position(
                        k,
                        self.dims().x as int,
                    ) && *out@[k].1 == self@[k],
            decreases self@.len() - i,
        {
            out.push((self.position_of(i), &self.cells[i]));
            i += 1;
        }
        out
    }
}

} // verus!
