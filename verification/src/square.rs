use vstd::prelude::*;
use vstd::string::StringExecFns;
use crate::color::Color;
use crate::defs::{File, Rank};

verus! {

/// Number of squares of the board.
pub const NUM_SQUARES: usize = 64;

/// Rank (row) of the square with number `s`.
pub open spec fn rank_of(s: int) -> int {
    s / 8
}

/// File (column) of the square with number `s`.
pub open spec fn file_of(s: int) -> int {
    s % 8
}

/// Whether `s` numbers a square of the board.
pub open spec fn on_board(s: int) -> bool {
    0 <= s < 64
}

/// Number of the square on the given rank and file.
pub open spec fn square_at(rank: int, file: int) -> int {
    rank * 8 + file
}

/// Whether the rank and file lie on the board.
pub open spec fn coords_on_board(rank: int, file: int) -> bool {
    0 <= rank < 8 && 0 <= file < 8
}

/// Letter that names a file: 'a' for file 0 up to 'h' for file 7.
pub open spec fn file_letter(file: int) -> char {
    if file == 0 {
        'a'
    } else if file == 1 {
        'b'
    } else if file == 2 {
        'c'
    } else if file == 3 {
        'd'
    } else if file == 4 {
        'e'
    } else if file == 5 {
        'f'
    } else if file == 6 {
        'g'
    } else {
        'h'
    }
}

/// Digit that names a rank: '1' for rank 0 up to '8' for rank 7.
pub open spec fn rank_digit(rank: int) -> char {
    if rank == 0 {
        '1'
    } else if rank == 1 {
        '2'
    } else if rank == 2 {
        '3'
    } else if rank == 3 {
        '4'
    } else if rank == 4 {
        '5'
    } else if rank == 5 {
        '6'
    } else if rank == 6 {
        '7'
    } else {
        '8'
    }
}

/// A square of the board, numbered rank * 8 + file.
#[derive(Copy, Clone, Debug, PartialEq, Eq, Structural)]
pub struct Square(pub u8);

impl Default for Square {
    fn default() -> (s: Square)
        ensures
            s.0 == 0,
    {
        Square(0)
    }
}

fn file_name(file: u8) -> (s: &'static str)
    requires
        file < 8,
    ensures
        s@ == seq![file_letter(file as int)],
{
    proof {
        reveal_strlit("a");
        reveal_strlit("b");
        reveal_strlit("c");
        reveal_strlit("d");
        reveal_strlit("e");
        reveal_strlit("f");
        reveal_strlit("g");
        reveal_strlit("h");
    }
    let s: &'static str = match file {
        0 => "a",
        1 => "b",
        2 => "c",
        3 => "d",
        4 => "e",
        5 => "f",
        6 => "g",
        _ => "h",
    };
    assert(s@ =~= seq![file_letter(file as int)]);
    s
}

fn rank_name(rank: u8) -> (s: &'static str)
    requires
        rank < 8,
    ensures
        s@ == seq![rank_digit(rank as int)],
{
    proof {
        reveal_strlit("1");
        reveal_strlit("2");
        reveal_strlit("3");
        reveal_strlit("4");
        reveal_strlit("5");
        reveal_strlit("6");
        reveal_strlit("7");
        reveal_strlit("8");
    }
    let s: &'static str = match rank {
        0 => "1",
        1 => "2",
        2 => "3",
        3 => "4",
        4 => "5",
        5 => "6",
        6 => "7",
        _ => "8",
    };
    assert(s@ =~= seq![rank_digit(rank as int)]);
    s
}

impl Square {
    /// The numbers of the squares, by name.
    pub const A1: u8 = 0;
    pub const B1: u8 = 1;
    pub const C1: u8 = 2;
    pub const D1: u8 = 3;
    pub const E1: u8 = 4;
    pub const F1: u8 = 5;
    pub const G1: u8 = 6;
    pub const H1: u8 = 7;
    pub const A2: u8 = 8;
    pub const B2: u8 = 9;
    pub const C2: u8 = 10;
    pub const D2: u8 = 11;
    pub const E2: u8 = 12;
    pub const F2: u8 = 13;
    pub const G2: u8 = 14;
    pub const H2: u8 = 15;
    pub const A3: u8 = 16;
    pub const B3: u8 = 17;
    pub const C3: u8 = 18;
    pub const D3: u8 = 19;
    pub const E3: u8 = 20;
    pub const F3: u8 = 21;
    pub const G3: u8 = 22;
    pub const H3: u8 = 23;
    pub const A4: u8 = 24;
    pub const B4: u8 = 25;
    pub const C4: u8 = 26;
    pub const D4: u8 = 27;
    pub const E4: u8 = 28;
    pub const F4: u8 = 29;
    pub const G4: u8 = 30;
    pub const H4: u8 = 31;
    pub const A5: u8 = 32;
    pub const B5: u8 = 33;
    pub const C5: u8 = 34;
    pub const D5: u8 = 35;
    pub const E5: u8 = 36;
    pub const F5: u8 = 37;
    pub const G5: u8 = 38;
    pub const H5: u8 = 39;
    pub const A6: u8 = 40;
    pub const B6: u8 = 41;
    pub const C6: u8 = 42;
    pub const D6: u8 = 43;
    pub const E6: u8 = 44;
    pub const F6: u8 = 45;
    pub const G6: u8 = 46;
    pub const H6: u8 = 47;
    pub const A7: u8 = 48;
    pub const B7: u8 = 49;
    pub const C7: u8 = 50;
    pub const D7: u8 = 51;
    pub const E7: u8 = 52;
    pub const F7: u8 = 53;
    pub const G7: u8 = 54;
    pub const H7: u8 = 55;
    pub const A8: u8 = 56;
    pub const B8: u8 = 57;
    pub const C8: u8 = 58;
    pub const D8: u8 = 59;
    pub const E8: u8 = 60;
    pub const F8: u8 = 61;
    pub const G8: u8 = 62;
    pub const H8: u8 = 63;

    /// The square's number as a mathematical integer.
    pub open spec fn idx(self) -> int {
        self.0 as int
    }

    /// A square is well formed when its number is below 64.
    pub open spec fn wf(self) -> bool {
        self.0 < 64
    }

    /// The square `dr` ranks up and `df` files to the right, if that is on the board.
    pub open spec fn moved(self, dr: int, df: int) -> Option<Square> {
        let r = rank_of(self.idx()) + dr;
        let f = file_of(self.idx()) + df;
        if coords_on_board(r, f) {
            Some(Square(square_at(r, f) as u8))
        } else {
            None
        }
    }

    /// The square with the number `sq`.
    pub fn new(sq: u8) -> (s: Square)
        requires
            sq < 64,
        ensures
            s.0 == sq,
            s.wf(),
    {
        Square(sq)
    }

    /// The square on the given rank and file.
    pub fn make_square(rank: Rank, file: File) -> (s: Square)
        ensures
            s.wf(),
            s.idx() == square_at(rank.index(), file.index()),
    {
        Square(rank.to_index() * 8 + file.to_index())
    }

    /// The rank of the square.
    pub fn rank(&self) -> (r: Rank)
        requires
            self.wf(),
        ensures
            r.index() == rank_of(self.idx()),
    {
        Rank::from_index(self.rank_index())
    }

    /// The file of the square.
    pub fn file(&self) -> (f: File)
        requires
            self.wf(),
        ensures
            f.index() == file_of(self.idx()),
    {
        File::from_index(self.file_index())
    }

    /// Number of the square's rank, 0 to 7.
    pub fn rank_index(&self) -> (r: u8)
        requires
            self.wf(),
        ensures
            r == rank_of(self.idx()),
            r < 8,
    {
        self.0 / 8
    }

    /// Number of the square's file, 0 to 7.
    pub fn file_index(&self) -> (f: u8)
        requires
            self.wf(),
        ensures
            f == file_of(self.idx()),
            f < 8,
    {
        self.0 % 8
    }

    /// The square one rank up, if there is one.
    pub fn up(&self) -> (r: Option<Square>)
        requires
            self.wf(),
        ensures
            r == self.moved(1, 0),
            r matches Some(s) ==> s.wf(),
    {
        match self.rank().up() {
            Some(rank) => Some(Square::make_square(rank, self.file())),
            None => None,
        }
    }

    /// The square one rank down, if there is one.
    pub fn down(&self) -> (r: Option<Square>)
        requires
            self.wf(),
        ensures
            r == self.moved(-1, 0),
            r matches Some(s) ==> s.wf(),
    {
        match self.rank().down() {
            Some(rank) => Some(Square::make_square(rank, self.file())),
            None => None,
        }
    }

    /// The square one file to the left, if there is one.
    pub fn left(&self) -> (r: Option<Square>)
        requires
            self.wf(),
        ensures
            r == self.moved(0, -1),
            r matches Some(s) ==> s.wf(),
    {
        match self.file().left() {
            Some(file) => Some(Square::make_square(self.rank(), file)),
            None => None,
        }
    }

    /// The square one file to the right, if there is one.
    pub fn right(&self) -> (r: Option<Square>)
        requires
            self.wf(),
        ensures
            r == self.moved(0, 1),
            r matches Some(s) ==> s.wf(),
    {
        match self.file().right() {
            Some(file) => Some(Square::make_square(self.rank(), file)),
            None => None,
        }
    }

    /// One step towards the opponent's side: up for White, down for Black.
    pub fn forward(&self, color: Color) -> (r: Option<Square>)
        requires
            self.wf(),
        ensures
            r == self.moved(color.step(), 0),
            r matches Some(s) ==> s.wf(),
    {
        match color {
            Color::White => self.up(),
            Color::Black => self.down(),
        }
    }

    /// One step towards the own side.
    pub fn backward(&self, color: Color) -> (r: Option<Square>)
        requires
            self.wf(),
        ensures
            r == self.moved(-color.step(), 0),
            r matches Some(s) ==> s.wf(),
    {
        self.forward(color.opposite())
    }

    /// The square seen from the other side of the board: same file, rank 7 - rank.
    pub fn flip(self) -> (r: Square)
        requires
            self.wf(),
        ensures
            r.wf(),
            r.idx() == square_at(7 - rank_of(self.idx()), file_of(self.idx())),
    {
        Square((7 - self.0 / 8) * 8 + self.0 % 8)
    }

    /// The square's number.
    pub fn to_u8(&self) -> (r: u8)
        ensures
            r == self.0,
    {
        self.0
    }

    /// The square's number as an index.
    pub fn to_index(&self) -> (r: usize)
        ensures
            r == self.idx(),
    {
        self.0 as usize
    }

    /// Whether the square's number is below 64.
    pub fn is_okay(self) -> (r: bool)
        ensures
            r == self.wf(),
    {
        self.0 < 64
    }

    /// Name of the square in algebraic notation, file letter then rank digit.
    pub fn to_string(&self) -> (s: String)
        requires
            self.wf(),
        ensures
            s@ == seq![file_letter(file_of(self.idx())), rank_digit(rank_of(self.idx()))],
    {
        let s: String = String::from_str(file_name(self.file_index()));
        let s: String = s.concat(rank_name(self.rank_index()));
        assert(s@ =~= seq![file_letter(file_of(self.idx())), rank_digit(rank_of(self.idx()))]);
        s
    }
}

} // verus!
