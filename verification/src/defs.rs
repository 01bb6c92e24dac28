use vstd::prelude::*;

verus! {

/// A column of the board, `A` on the left.
#[derive(Copy, Clone, Debug, PartialEq, Eq, Structural)]
pub enum File {
    A,
    B,
    C,
    D,
    E,
    F,
    G,
    H,
}

/// Number of files.
pub const NUM_FILES: usize = 8;

/// The files from left to right.
pub const ALL_FILES: [File; 8] = [
    File::A,
    File::B,
    File::C,
    File::D,
    File::E,
    File::F,
    File::G,
    File::H,
];

/// A row of the board, `One` at White's edge.
#[derive(Copy, Clone, Debug, PartialEq, Eq, Structural)]
pub enum Rank {
    One,
    Two,
    Three,
    Four,
    Five,
    Six,
    Seven,
    Eight,
}

/// Number of ranks.
pub const NUM_RANKS: usize = 8;

/// The ranks from White's edge to Black's.
pub const ALL_RANKS: [Rank; 8] = [
    Rank::One,
    Rank::Two,
    Rank::Three,
    Rank::Four,
    Rank::Five,
    Rank::Six,
    Rank::Seven,
    Rank::Eight,
];

impl File {
    /// Number of the file, 0 for `A` up to 7 for `H`.
    pub open spec fn index(self) -> int {
        match self {
            File::A => 0,
            File::B => 1,
            File::C => 2,
            File::D => 3,
            File::E => 4,
            File::F => 5,
            File::G => 6,
            File::H => 7,
        }
    }

    /// The file with the given number.
    pub open spec fn of(i: int) -> File {
        if i == 0 {
            File::A
        } else if i == 1 {
            File::B
        } else if i == 2 {
            File::C
        } else if i == 3 {
            File::D
        } else if i == 4 {
            File::E
        } else if i == 5 {
            File::F
        } else if i == 6 {
            File::G
        } else {
            File::H
        }
    }

    /// The neighbour `delta` files to the right, if it is on the board.
    pub open spec fn shifted(self, delta: int) -> Option<File> {
        if 0 <= self.index() + delta < 8 {
            Some(File::of(self.index() + delta))
        } else {
            None
        }
    }

    /// The file with the given number.
    pub fn from_index(i: u8) -> (f: File)
        requires
            i < 8,
        ensures
            f == File::of(i as int),
            f.index() == i,
    {
        match i {
            0 => File::A,
            1 => File::B,
            2 => File::C,
            3 => File::D,
            4 => File::E,
            5 => File::F,
            6 => File::G,
            _ => File::H,
        }
    }

    /// Number of the file, 0 for `A` up to 7 for `H`.
    pub fn to_index(&self) -> (i: u8)
        ensures
            i == self.index(),
            i < 8,
    {
        match self {
            File::A => 0,
            File::B => 1,
            File::C => 2,
            File::D => 3,
            File::E => 4,
            File::F => 5,
            File::G => 6,
            File::H => 7,
        }
    }

    /// The file to the left, if there is one.
    pub fn left(&self) -> (r: Option<File>)
        ensures
            r == self.shifted(-1),
    {
        let i: u8 = self.to_index();
        if i == 0 {
            None
        } else {
            Some(File::from_index(i - 1))
        }
    }

    /// Table form of [`File::left`].
    pub fn const_left(&self) -> (r: Option<File>)
        ensures
            r == self.shifted(-1),
    {
        match self {
            File::A => None,
            File::B => Some(File::A),
            File::C => Some(File::B),
            File::D => Some(File::C),
            File::E => Some(File::D),
            File::F => Some(File::E),
            File::G => Some(File::F),
            File::H => Some(File::G),
        }
    }

    /// The file to the right, if there is one.
    pub fn right(&self) -> (r: Option<File>)
        ensures
            r == self.shifted(1),
    {
        let i: u8 = self.to_index();
        if i == 7 {
            None
        } else {
            Some(File::from_index(i + 1))
        }
    }

    /// Table form of [`File::right`].
    pub fn const_right(&self) -> (r: Option<File>)
        ensures
            r == self.shifted(1),
    {
        match self {
            File::A => Some(File::B),
            File::B => Some(File::C),
            File::C => Some(File::D),
            File::D => Some(File::E),
            File::E => Some(File::F),
            File::F => Some(File::G),
            File::G => Some(File::H),
            File::H => None,
        }
    }
}

impl Rank {
    /// Number of the rank, 0 for `One` up to 7 for `Eight`.
    pub open spec fn index(self) -> int {
        match self {
            Rank::One => 0,
            Rank::Two => 1,
            Rank::Three => 2,
            Rank::Four => 3,
            Rank::Five => 4,
            Rank::Six => 5,
            Rank::Seven => 6,
            Rank::Eight => 7,
        }
    }

    /// The rank with the given number.
    pub open spec fn of(i: int) -> Rank {
        if i == 0 {
            Rank::One
        } else if i == 1 {
            Rank::Two
        } else if i == 2 {
            Rank::Three
        } else if i == 3 {
            Rank::Four
        } else if i == 4 {
            Rank::Five
        } else if i == 5 {
            Rank::Six
        } else if i == 6 {
            Rank::Seven
        } else {
            Rank::Eight
        }
    }

    /// The rank `delta` rows further up, if it is on the board.
    pub open spec fn shifted(self, delta: int) -> Option<Rank> {
        if 0 <= self.index() + delta < 8 {
            Some(Rank::of(self.index() + delta))
        } else {
            None
        }
    }

    /// The rank with the given number.
    pub fn from_index(i: u8) -> (r: Rank)
        requires
            i < 8,
        ensures
            r == Rank::of(i as int),
            r.index() == i,
    {
        match i {
            0 => Rank::One,
            1 => Rank::Two,
            2 => Rank::Three,
            3 => Rank::Four,
            4 => Rank::Five,
            5 => Rank::Six,
            6 => Rank::Seven,
            _ => Rank::Eight,
        }
    }

    /// Number of the rank, 0 for `One` up to 7 for `Eight`.
    pub fn to_index(&self) -> (i: u8)
        ensures
            i == self.index(),
            i < 8,
    {
        match self {
            Rank::One => 0,
            Rank::Two => 1,
            Rank::Three => 2,
            Rank::Four => 3,
            Rank::Five => 4,
            Rank::Six => 5,
            Rank::Seven => 6,
            Rank::Eight => 7,
        }
    }

    /// The rank below, if there is one.
    pub fn down(&self) -> (r: Option<Rank>)
        ensures
            r == self.shifted(-1),
    {
        let i: u8 = self.to_index();
        if i == 0 {
            None
        } else {
            Some(Rank::from_index(i - 1))
        }
    }

    /// Table form of [`Rank::down`].
    pub fn const_down(&self) -> (r: Option<Rank>)
        ensures
            r == self.shifted(-1),
    {
        match self {
            Rank::One => None,
            Rank::Two => Some(Rank::One),
            Rank::Three => Some(Rank::Two),
            Rank::Four => Some(Rank::Three),
            Rank::Five => Some(Rank::Four),
            Rank::Six => Some(Rank::Five),
            Rank::Seven => Some(Rank::Six),
            Rank::Eight => Some(Rank::Seven),
        }
    }

    /// The rank above, if there is one.
    pub fn up(&self) -> (r: Option<Rank>)
        ensures
            r == self.shifted(1),
    {
        let i: u8 = self.to_index();
        if i == 7 {
            None
        } else {
            Some(Rank::from_index(i + 1))
        }
    }

    /// Table form of [`Rank::up`].
    pub fn const_up(&self) -> (r: Option<Rank>)
        ensures
            r == self.shifted(1),
    {
        match self {
            Rank::One => Some(Rank::Two),
            Rank::Two => Some(Rank::Three),
            Rank::Three => Some(Rank::Four),
            Rank::Four => Some(Rank::Five),
            Rank::Five => Some(Rank::Six),
            Rank::Six => Some(Rank::Seven),
            Rank::Seven => Some(Rank::Eight),
            Rank::Eight => None,
        }
    }
}

} // verus!
