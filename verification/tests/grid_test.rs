use cannon::grid::{Grid, Point};

fn at(x: i32, y: i32) -> Point {
    Point { x, y }
}

#[test]
fn new_grid_has_a_cell_for_every_position() {
    let grid: Grid<u8> = Grid::new(at(3, 4), 7);
    assert_eq!(grid.size(), at(3, 4));
    assert_eq!(grid.iter().len(), 12);
    for y in 0..4 {
        for x in 0..3 {
            assert_eq!(grid.get(at(x, y)), Some(&7));
            assert_eq!(grid.get_cloned(at(x, y)), Some(7));
        }
    }
    let empty: Grid<u8> = Grid::new(at(0, 5), 1);
    assert_eq!(empty.iter().len(), 0);
    assert_eq!(empty.get(at(0, 0)), None);
}

#[test]
fn positions_off_the_grid_have_no_cell() {
    let mut grid: Grid<u8> = Grid::new(at(3, 4), 7);
    assert_eq!(grid.get(at(3, 0)), None);
    assert_eq!(grid.get(at(0, 4)), None);
    assert_eq!(grid.get(at(-1, 0)), None);
    assert_eq!(grid.get(at(0, -1)), None);
    assert_eq!(grid.get(at(3, 4)), None);
    assert_eq!(grid.get_cloned(at(7, 7)), None);
    assert!(grid.get_mut(at(3, 3)).is_none());
    assert_eq!(grid.set(at(-1, -1), 9), None);
    assert_eq!(grid.get(at(2, 3)), Some(&7));
}

#[test]
fn populated_grid_holds_what_the_function_gives() {
    let grid = Grid::populate_with(at(4, 3), |p: Point| p.y * 10 + p.x);
    assert_eq!(grid.size(), at(4, 3));
    assert_eq!(grid.get(at(0, 0)), Some(&0));
    assert_eq!(grid.get(at(3, 0)), Some(&3));
    assert_eq!(grid.get(at(0, 1)), Some(&10));
    assert_eq!(grid.get(at(3, 2)), Some(&23));
    let cells: Vec<(Point, i32)> = grid.iter().into_iter().map(|(p, c)| (p, *c)).collect();
    assert_eq!(cells.len(), 12);
    assert_eq!(cells[0], (at(0, 0), 0));
    assert_eq!(cells[5], (at(1, 1), 11));
    assert_eq!(cells[11], (at(3, 2), 23));
    assert_eq!(grid.position_of(7), at(3, 1));
    assert_eq!(grid[at(3, 1)], 13);
    assert_eq!(grid[at(0, 2)], 20);
    let none = Grid::populate_with(at(-2, 3), |p: Point| p.x);
    assert_eq!(none.iter().len(), 0);
}

#[test]
fn set_and_get_mut_write_one_cell() {
    let mut grid: Grid<u8> = Grid::new(at(2, 2), 0);
    assert_eq!(grid.set(at(1, 0), 5), Some(0));
    assert_eq!(grid.set(at(1, 0), 6), Some(5));
    if let Some(cell) = grid.get_mut(at(0, 1)) {
        *cell = 9;
    }
    let cells: Vec<u8> = grid.iter().into_iter().map(|(_, c)| *c).collect();
    assert_eq!(cells, vec![0, 6, 9, 0]);
}
