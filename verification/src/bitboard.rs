use vstd::prelude::*;
use vstd::set_lib::*;
use vstd::std_specs::bits::u64_trailing_zeros;
use crate::bits::{
    bit_at, bit_scan_forward, board_text, lemma_bit_clear_lowest, lemma_bit_ext,
    lemma_bit_lowest, lemma_bit_ops, lemma_bit_single, lemma_bit_swapped, mirrored_bit,
    string_u64, swapped_bytes,
};
use crate::square::Square;

verus! {

/// A set of squares, one bit per square: bit `i` stands for square `i`.
#[derive(Copy, Clone, Debug, PartialEq, Eq, Structural)]
pub struct BitBoard(pub u64);

impl Default for BitBoard {
    fn default() -> (b: BitBoard)
        ensures
            b.0 == 0,
            b@ == Set::<int>::empty(),
    {
        let b = BitBoard(0);
        proof {
            b.lemma_empty();
        }
        b
    }
}

impl View for BitBoard {
    type V = Set<int>;

    /// The squares of the board, as a set of square numbers.
    open spec fn view(&self) -> Set<int> {
        Set::new(|i: int| bit_at(self.0, i))
    }
}

impl core::ops::BitOr for BitBoard {
    type Output = BitBoard;

    /// Squares that are in either board.
    fn bitor(self, rhs: BitBoard) -> (r: BitBoard) {
        self.union(rhs)
    }
}

impl vstd::std_specs::ops::BitOrSpecImpl for BitBoard {
    open spec fn obeys_bitor_spec() -> bool {
        true
    }

    open spec fn bitor_req(self, rhs: BitBoard) -> bool {
        true
    }

    open spec fn bitor_spec(self, rhs: BitBoard) -> BitBoard {
        BitBoard(self.0 | rhs.0)
    }
}

impl core::ops::BitAnd for BitBoard {
    type Output = BitBoard;

    /// Squares that are in both boards.
    fn bitand(self, rhs: BitBoard) -> (r: BitBoard) {
        self.intersect(rhs)
    }
}

impl vstd::std_specs::ops::BitAndSpecImpl for BitBoard {
    open spec fn obeys_bitand_spec() -> bool {
        true
    }

    open spec fn bitand_req(self, rhs: BitBoard) -> bool {
        true
    }

    open spec fn bitand_spec(self, rhs: BitBoard) -> BitBoard {
        BitBoard(self.0 & rhs.0)
    }
}

impl core::ops::BitXor for BitBoard {
    type Output = BitBoard;

    /// Squares that are in exactly one of the boards.
    fn bitxor(self, rhs: BitBoard) -> (r: BitBoard) {
        self.toggle(rhs)
    }
}

impl vstd::std_specs::ops::BitXorSpecImpl for BitBoard {
    open spec fn obeys_bitxor_spec() -> bool {
        true
    }

    open spec fn bitxor_req(self, rhs: BitBoard) -> bool {
        true
    }

    open spec fn bitxor_spec(self, rhs: BitBoard) -> BitBoard {
        BitBoard(self.0 ^ rhs.0)
    }
}

impl BitBoard {
    /// Whether square `i` is in the set.
    pub open spec fn has(self, i: int) -> bool {
        bit_at(self.0, i)
    }

    /// Whether `i` is the lowest square of the set.
    pub open spec fn lowest_is(self, i: int) -> bool {
        self@.contains(i) && forall|j: int| self@.contains(j) ==> i <= j
    }

    /// The set holds only squares of the board and is finite.
    pub proof fn lemma_view(self)
        ensures
            self@.finite(),
            self@.len() <= 64,
            forall|i: int| self@.contains(i) == self.has(i),
            forall|i: int| self@.contains(i) ==> 0 <= i < 64,
    {
        let range = set_int_range(0, 64);
        lemma_int_range(0, 64);
        assert(self@.subset_of(range));
        lemma_len_subset(self@, range);
    }

    /// The zero word is the empty set, and only it.
    pub proof fn lemma_empty(self)
        ensures
            (self.0 == 0) == (self@ == Set::<int>::empty()),
            (self.0 == 0) == (self@.len() == 0),
    {
        lemma_bit_lowest(self.0);
        self.lemma_view();
        if self.0 == 0 {
            assert(self@ =~= Set::<int>::empty());
        } else {
            let l = u64_trailing_zeros(self.0) as int;
            assert(self@.contains(l));
            if self@.len() == 0 {
                assert(self@ =~= Set::<int>::empty());
            }
        }
    }

    /// Boards with the same squares are the same board.
    pub proof fn lemma_ext(self, other: BitBoard)
        requires
            self@ == other@,
        ensures
            self == other,
    {
        assert forall|i: int| 0 <= i < 64 implies bit_at(self.0, i) == bit_at(other.0, i) by {
            assert(self@.contains(i) == bit_at(self.0, i));
            assert(other@.contains(i) == bit_at(other.0, i));
        }
        lemma_bit_ext(self.0, other.0);
    }

    /// The board with the squares whose bits are set in `b`.
    pub fn new(b: u64) -> (r: BitBoard)
        ensures
            r.0 == b,
    {
        BitBoard(b)
    }

    /// The board without any square.
    pub fn empty() -> (r: BitBoard)
        ensures
            r.0 == 0,
            r@ == Set::<int>::empty(),
    {
        let r = BitBoard(0);
        proof {
            r.lemma_empty();
        }
        r
    }

    /// The board that holds `sq` alone.
    pub fn from_square(sq: Square) -> (r: BitBoard)
        requires
            sq.wf(),
        ensures
            r@ == set![sq.idx()],
            r.0 == 1u64 << (sq.0 as u64),
    {
        let r = BitBoard(1u64 << (sq.to_u8() as u64));
        proof {
            lemma_bit_single(sq.idx());
            assert(r@ =~= set![sq.idx()]);
        }
        r
    }

    /// Squares that are in `self` or in `other`.
    pub fn union(self, other: BitBoard) -> (r: BitBoard)
        ensures
            r@ == self@.union(other@),
            r.0 == self.0 | other.0,
    {
        let r = BitBoard(self.0 | other.0);
        proof {
            lemma_bit_ops(self.0, other.0);
            assert(r@ =~= self@.union(other@));
        }
        r
    }

    /// Squares that are in both `self` and `other`.
    pub fn intersect(self, other: BitBoard) -> (r: BitBoard)
        ensures
            r@ == self@.intersect(other@),
            r.0 == self.0 & other.0,
    {
        let r = BitBoard(self.0 & other.0);
        proof {
            lemma_bit_ops(self.0, other.0);
            assert(r@ =~= self@.intersect(other@));
        }
        r
    }

    /// Squares that are in exactly one of `self` and `other`.
    pub fn toggle(self, other: BitBoard) -> (r: BitBoard)
        ensures
            r@ == self@.difference(other@).union(other@.difference(self@)),
            r.0 == self.0 ^ other.0,
    {
        let r = BitBoard(self.0 ^ other.0);
        proof {
            lemma_bit_ops(self.0, other.0);
            assert(r@ =~= self@.difference(other@).union(other@.difference(self@)));
        }
        r
    }

    /// Squares of the board that are not in `self`.
    pub fn complement(self) -> (r: BitBoard)
        ensures
            r@ == set_int_range(0, 64).difference(self@),
            r.0 == !self.0,
    {
        let r = BitBoard(!self.0);
        proof {
            lemma_bit_ops(self.0, self.0);
            assert(r@ =~= set_int_range(0, 64).difference(self@));
        }
        r
    }

    /// Squares that are in `self` and not in `other`.
    pub fn difference(self, other: BitBoard) -> (r: BitBoard)
        ensures
            r@ == self@.difference(other@),
            r.0 == self.0 & !other.0,
    {
        let r = BitBoard(self.0 & !other.0);
        proof {
            lemma_bit_ops(self.0, other.0);
            assert(r@ =~= self@.difference(other@));
        }
        r
    }

    /// Whether every square of `self` is in `other`.
    pub fn subset_of(self, other: BitBoard) -> (r: bool)
        ensures
            r == self@.subset_of(other@),
    {
        let common = self.intersect(other);
        proof {
            if self@.subset_of(other@) {
                assert(common@ =~= self@);
                common.lemma_ext(self);
            }
        }
        common.0 == self.0
    }

    /// Whether `sq` is in the set.
    pub fn contains(self, sq: Square) -> (r: bool)
        requires
            sq.wf(),
        ensures
            r == self@.contains(sq.idx()),
    {
        (self.0 >> (sq.to_u8() as u64)) & 1 == 1
    }

    /// Number of squares in the set.
    pub fn count_bits(self) -> (n: u32)
        ensures
            n == self@.len(),
            n <= 64,
    {
        let mut rest: BitBoard = self;
        let mut n: u32 = 0;
        proof {
            self.lemma_view();
        }
        while rest.0 != 0
            invariant
                self@.finite(),
                self@.len() <= 64,
                rest@.subset_of(self@),
                rest@.finite(),
                n + rest@.len() == self@.len(),
            decreases rest@.len(),
        {
            proof {
                rest.lemma_empty();
            }
            let ghost before = rest;
            let _ = rest.pop_lsb();
            n += 1;
        }
        proof {
            rest.lemma_empty();
        }
        n
    }

    /// Whether the board holds no square.
    pub fn is_empty(self) -> (r: bool)
        ensures
            r == (self@ == Set::<int>::empty()),
            r == (self@.len() == 0),
    {
        proof {
            self.lemma_empty();
        }
        self.0 == 0
    }

    /// Whether the board holds a square.
    pub fn is_not_empty(self) -> (r: bool)
        ensures
            r == (self@ != Set::<int>::empty()),
            r == (self@.len() > 0),
    {
        !self.is_empty()
    }

    /// The lowest square of the set, or square 63 when the set is empty.
    pub fn to_square(&self) -> (s: Square)
        ensures
            s.wf(),
            self@.len() > 0 ==> self.lowest_is(s.idx()),
            self@.len() == 0 ==> s.idx() == 63,
    {
        Square(self.lsb_u8())
    }

    /// The board seen from the other side: each square moves to the same file
    /// on rank 7 - rank.
    pub fn reverse(&self) -> (r: BitBoard)
        ensures
            forall|i: int| 0 <= i < 64 ==> r@.contains(i) == self@.contains(mirrored_bit(i)),
            r.0 == swapped_bytes(self.0),
    {
        let b: u64 = self.0;
        let r = BitBoard(
            ((b & 0xff) << 56) | ((b & 0xff00) << 40) | ((b & 0xff_0000) << 24) | ((b
                & 0xff00_0000) << 8) | ((b >> 8) & 0xff00_0000) | ((b >> 24) & 0xff_0000) | ((b
                >> 40) & 0xff00) | ((b >> 56) & 0xff),
        );
        proof {
            lemma_bit_swapped(b);
            assert(r.0 == swapped_bytes(b));
            assert forall|i: int| 0 <= i < 64 implies r@.contains(i) == self@.contains(
                mirrored_bit(i),
            ) by {
                assert(r@.contains(i) == bit_at(swapped_bytes(b), i));
                assert(self@.contains(mirrored_bit(i)) == bit_at(b, mirrored_bit(i)));
            }
        }
        r
    }

    /// The lowest square of the set, or square 63 when the set is empty.
    pub fn lsb_square(self) -> (s: Square)
        ensures
            s.wf(),
            self@.len() > 0 ==> self.lowest_is(s.idx()),
            self@.len() == 0 ==> s.idx() == 63,
    {
        Square(self.lsb_u8())
    }

    /// Takes the lowest square out of the set and returns it.
    pub fn pop_lsb(&mut self) -> (s: Square)
        requires
            old(self)@.len() > 0,
        ensures
            s.wf(),
            old(self).lowest_is(s.idx()),
            final(self)@ == old(self)@.remove(s.idx()),
            final(self)@.len() == old(self)@.len() - 1,
    {
        let square = self.lsb_square();
        proof {
            self.lemma_empty();
            self.lemma_view();
            lemma_bit_clear_lowest(self.0);
            lemma_bit_lowest(self.0);
            let l = u64_trailing_zeros(self.0) as int;
            assert(self@.contains(l));
            assert(self.lowest_is(l));
            assert(square.idx() == l);
        }
        self.0 = self.0 & (self.0 - 1);
        proof {
            assert(self@ =~= old(self)@.remove(square.idx()));
        }
        square
    }

    /// Takes the lowest square out of the set, if there is one.
    pub fn pop_some_lsb(&mut self) -> (r: Option<Square>)
        ensures
            old(self)@.len() == 0 ==> r.is_none() && *final(self) == *old(self),
            old(self)@.len() > 0 ==> r.is_some() && r.unwrap().wf() && old(self).lowest_is(
                r.unwrap().idx(),
            ) && final(self)@ == old(self)@.remove(r.unwrap().idx()) && final(self)@.len()
                == old(self)@.len() - 1,
    {
        if self.is_empty() {
            None
        } else {
            Some(self.pop_lsb())
        }
    }

    /// Number of the lowest square of the set, or 63 when the set is empty.
    pub fn lsb_u8(self) -> (r: u8)
        ensures
            r < 64,
            self@.len() > 0 ==> self.lowest_is(r as int),
            self@.len() == 0 ==> r == 63,
    {
        proof {
            self.lemma_empty();
            self.lemma_view();
        }
        bit_scan_forward(self.0)
    }

    /// The board as text, one line for each rank from rank 1 on, with the
    /// squares of a rank from file h down to file a.
    pub fn to_string(&self) -> (s: String)
        ensures
            s@ == board_text(swapped_bytes(self.0)),
    {
        string_u64(self.reverse().0)
    }
}

} // verus!
