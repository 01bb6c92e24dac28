use cannon::bitboard::BitBoard;
use cannon::bits::{bit_scan_forward, format_u64, string_u64};
use cannon::cannon_move::{BitMove, MoveWithScore};
use cannon::color::{Color, ALL_COLORS, NUM_COLORS};
use cannon::defs::{File, Rank, ALL_FILES, ALL_RANKS, NUM_FILES, NUM_RANKS};
use cannon::square::{Square, NUM_SQUARES};

#[test]
fn bit_scan_finds_the_lowest_bit() {
    assert_eq!(bit_scan_forward(1), 0);
    assert_eq!(bit_scan_forward(0b1011000), 3);
    assert_eq!(bit_scan_forward(1u64 << 63), 63);
    assert_eq!(bit_scan_forward(u64::MAX), 0);
    assert_eq!(bit_scan_forward(0), 63);
    for i in 0..64u32 {
        assert_eq!(bit_scan_forward((1u64 << i) | (1u64 << 63)), i as u8);
    }
}

#[test]
fn binary_text_of_a_word() {
    assert_eq!(format_u64(0), "0".repeat(64));
    assert_eq!(format_u64(5), format!("{}101", "0".repeat(61)));
    assert_eq!(format_u64(1u64 << 63), format!("1{}", "0".repeat(63)));
    let text = string_u64(0x01_00_00_00_00_00_00_81);
    assert_eq!(
        text,
        "00000001\n00000000\n00000000\n00000000\n00000000\n00000000\n00000000\n10000001\n"
    );
    assert_eq!(string_u64(u64::MAX), "11111111\n".repeat(8));
}

#[test]
fn bitboard_set_operations() {
    let a = BitBoard::new(0b1100);
    let b = BitBoard::new(0b1010);
    assert_eq!(a.union(b), BitBoard::new(0b1110));
    assert_eq!(a.intersect(b), BitBoard::new(0b1000));
    assert_eq!(a.toggle(b), BitBoard::new(0b0110));
    assert_eq!(a.difference(b), BitBoard::new(0b0100));
    assert_eq!(a.complement(), BitBoard::new(!0b1100u64));
    assert!(BitBoard::new(0b1000).subset_of(a));
    assert!(!b.subset_of(a));
    assert!(BitBoard::empty().subset_of(a));
    assert!(a.contains(Square::new(2)));
    assert!(!a.contains(Square::new(1)));
    assert_eq!(BitBoard::from_square(Square::new(63)).0, 1u64 << 63);
    assert_eq!(BitBoard::default(), BitBoard::empty());
    assert_eq!(a | b, a.union(b));
    assert_eq!(a & b, a.intersect(b));
    assert_eq!(a ^ b, a.toggle(b));
}

#[test]
fn bitboard_counts_and_pops() {
    let mut b = BitBoard::new(0x8000_0000_0001_0010);
    assert_eq!(b.count_bits(), 3);
    assert!(b.is_not_empty());
    assert_eq!(b.lsb_u8(), 4);
    assert_eq!(b.lsb_square(), Square::new(4));
    assert_eq!(b.to_square(), Square::new(4));
    assert_eq!(b.pop_lsb(), Square::new(4));
    assert_eq!(b.pop_some_lsb(), Some(Square::new(16)));
    assert_eq!(b.pop_some_lsb(), Some(Square::new(63)));
    assert_eq!(b.pop_some_lsb(), None);
    assert!(b.is_empty());
    assert_eq!(b.count_bits(), 0);
    assert_eq!(b.to_square(), Square::new(63));
    assert_eq!(BitBoard::new(u64::MAX).count_bits(), 64);
}

#[test]
fn bitboard_reverse_flips_the_ranks() {
    let b = BitBoard::from_square(Square::new(Square::C2));
    assert_eq!(b.reverse(), BitBoard::from_square(Square::new(Square::C7)));
    assert_eq!(BitBoard::new(0x0102030405060708).reverse().0, 0x0807060504030201);
    assert_eq!(Square::new(Square::C2).flip(), Square::new(Square::C7));
    let text = BitBoard::from_square(Square::new(Square::A1)).to_string();
    assert_eq!(
        text,
        "00000001\n00000000\n00000000\n00000000\n00000000\n00000000\n00000000\n00000000\n"
    );
}

#[test]
fn squares_and_their_neighbours() {
    let d4 = Square::new(Square::D4);
    assert_eq!(d4.to_u8(), 27);
    assert_eq!(d4.to_index(), 27);
    assert_eq!(d4.rank_index(), 3);
    assert_eq!(d4.file_index(), 3);
    assert_eq!(d4.rank(), Rank::Four);
    assert_eq!(d4.file(), File::D);
    assert_eq!(Square::make_square(Rank::Four, File::D), d4);
    assert_eq!(d4.up(), Some(Square::new(Square::D5)));
    assert_eq!(d4.down(), Some(Square::new(Square::D3)));
    assert_eq!(d4.left(), Some(Square::new(Square::C4)));
    assert_eq!(d4.right(), Some(Square::new(Square::E4)));
    assert_eq!(d4.forward(Color::White), Some(Square::new(Square::D5)));
    assert_eq!(d4.forward(Color::Black), Some(Square::new(Square::D3)));
    assert_eq!(d4.backward(Color::White), Some(Square::new(Square::D3)));
    assert_eq!(Square::new(Square::A1).left(), None);
    assert_eq!(Square::new(Square::A1).down(), None);
    assert_eq!(Square::new(Square::H8).right(), None);
    assert_eq!(Square::new(Square::H8).up(), None);
    assert_eq!(Square::new(Square::H8).to_string(), "h8");
    assert_eq!(d4.to_string(), "d4");
    assert!(d4.is_okay());
    assert!(!Square(64).is_okay());
    assert_eq!(Square::default(), Square::new(0));
    assert_eq!(NUM_SQUARES, 64);
}

#[test]
fn files_ranks_and_colors() {
    assert_eq!(NUM_FILES, 8);
    assert_eq!(NUM_RANKS, 8);
    assert_eq!(NUM_COLORS, 2);
    assert_eq!(ALL_COLORS, [Color::White, Color::Black]);
    for i in 0..8u8 {
        assert_eq!(File::from_index(i).to_index(), i);
        assert_eq!(Rank::from_index(i).to_index(), i);
        assert_eq!(ALL_FILES[i as usize], File::from_index(i));
        assert_eq!(ALL_RANKS[i as usize], Rank::from_index(i));
        assert_eq!(File::from_index(i).left(), File::from_index(i).const_left());
        assert_eq!(File::from_index(i).right(), File::from_index(i).const_right());
        assert_eq!(Rank::from_index(i).up(), Rank::from_index(i).const_up());
        assert_eq!(Rank::from_index(i).down(), Rank::from_index(i).const_down());
    }
    assert_eq!(File::A.left(), None);
    assert_eq!(File::A.right(), Some(File::B));
    assert_eq!(File::H.right(), None);
    assert_eq!(File::H.left(), Some(File::G));
    assert_eq!(Rank::One.down(), None);
    assert_eq!(Rank::One.up(), Some(Rank::Two));
    assert_eq!(Rank::Eight.up(), None);
    assert_eq!(Rank::Eight.down(), Some(Rank::Seven));
    assert_eq!(Color::White.to_index(), 0);
    assert_eq!(Color::Black.to_index(), 1);
    assert_eq!(Color::White.opposite(), Color::Black);
    assert_eq!(Color::Black.opposite(), Color::White);
    assert_eq!(Color::White.to_string(), "w");
    assert_eq!(Color::Black.to_string(), "b");
}

#[test]
fn moves_pack_and_unpack() {
    let src = Square::new(Square::C3);
    let dst = Square::new(Square::F6);
    let m = BitMove::make(src, dst);
    assert_eq!(m.data, 18 | (45 << 6));
    assert_eq!(m.src(), src);
    assert_eq!(m.dst(), dst);
    assert_eq!(m.src_u8(), 18);
    assert_eq!(m.dst_u8(), 45);
    assert!(!m.is_shot());
    assert_eq!(m.src_rank(), Rank::Three);
    assert_eq!(m.src_file(), File::C);
    assert_eq!(m.dst_rank(), Rank::Six);
    assert_eq!(m.dst_file(), File::F);
    assert_eq!(m.to_string(), "c3 -> f6");
    let s = BitMove::make_shot(src, dst);
    assert_eq!(s.data, 18 | (45 << 6) | (1 << 12));
    assert!(s.is_shot());
    assert_eq!(s.src(), src);
    assert_eq!(s.dst(), dst);
    assert_ne!(s, m);
    assert_eq!(BitMove::null().data, 0);
    assert_eq!(BitMove::new(0xffff).src_u8(), 63);
    assert_eq!(BitMove::new(0xffff).dst_u8(), 63);
    assert!(BitMove::new(0xffff).is_shot());
    assert!(!BitMove::new(0xefff).is_shot());
    assert_eq!(BitMove::default(), BitMove::null());
}

#[test]
fn scored_moves() {
    let m = BitMove::make(Square::new(1), Square::new(2));
    let scored = MoveWithScore::new(m);
    assert_eq!(scored.score(), 0);
    assert_eq!(scored.bitmove(), m);
    let scored = MoveWithScore::new_with_score(m, 17);
    assert_eq!(scored.negate().score(), -17);
    assert_eq!(scored.negate().bitmove(), m);
    assert_eq!(MoveWithScore::new_with_score(m, i16::MIN).negate().score(), i16::MIN);
    assert_eq!(MoveWithScore::new_with_score(m, i16::MAX).negate().score(), -i16::MAX);
    let other = scored.fill_move(BitMove::null());
    assert_eq!(other.bitmove(), BitMove::null());
    assert_eq!(other.score(), 17);
    assert!(other == scored);
    assert!(scored.negate() < scored);
    assert!(!(scored < scored));
    assert!(scored > scored.negate());
    assert!(MoveWithScore::new_with_score(m, 3) != MoveWithScore::new_with_score(m, 4));
}
