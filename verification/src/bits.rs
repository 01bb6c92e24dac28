use vstd::prelude::*;
use vstd::std_specs::bits::{axiom_u64_trailing_zeros, u64_trailing_zeros};
use vstd::string::StringExecFns;

verus! {

/// Whether bit `i` of `b` is set, bit 0 being the least significant one.
pub open spec fn bit_at(b: u64, i: int) -> bool {
    0 <= i < 64 && (b >> (i as u64)) & 1 == 1
}

/// Whether `i` is the position of the lowest set bit of `b`.
pub open spec fn is_lowest_bit(b: u64, i: int) -> bool {
    bit_at(b, i) && forall|j: int| bit_at(b, j) ==> i <= j
}

/// The byte order of `b` reversed: byte k of the result is byte 7 - k of `b`.
pub open spec fn swapped_bytes(b: u64) -> u64 {
    ((b & 0xff) << 56) | ((b & 0xff00) << 40) | ((b & 0xff_0000) << 24) | ((b & 0xff00_0000) << 8)
        | ((b >> 8) & 0xff00_0000) | ((b >> 24) & 0xff_0000) | ((b >> 40) & 0xff00) | ((b >> 56)
        & 0xff)
}

/// The bit position that byte reversal exchanges with position `i`.
pub open spec fn mirrored_bit(i: int) -> int {
    (7 - i / 8) * 8 + i % 8
}

proof fn bv_or(a: u64, b: u64, i: u64)
    by (bit_vector)
    requires
        i < 64,
    ensures
        (((a | b) >> i) & 1 == 1) == ((a >> i) & 1 == 1 || (b >> i) & 1 == 1),
{
}

proof fn bv_and(a: u64, b: u64, i: u64)
    by (bit_vector)
    requires
        i < 64,
    ensures
        (((a & b) >> i) & 1 == 1) == ((a >> i) & 1 == 1 && (b >> i) & 1 == 1),
{
}

proof fn bv_xor(a: u64, b: u64, i: u64)
    by (bit_vector)
    requires
        i < 64,
    ensures
        (((a ^ b) >> i) & 1 == 1) == (((a >> i) & 1 == 1) != ((b >> i) & 1 == 1)),
{
}

proof fn bv_not(a: u64, i: u64)
    by (bit_vector)
    requires
        i < 64,
    ensures
        (((!a) >> i) & 1 == 1) == !((a >> i) & 1 == 1),
{
}

proof fn bv_single(s: u64, i: u64)
    by (bit_vector)
    requires
        s < 64,
        i < 64,
    ensures
        (((1u64 << s) >> i) & 1 == 1) == (i == s),
{
}

proof fn bv_zero(i: u64)
    by (bit_vector)
    requires
        i < 64,
    ensures
        (0u64 >> i) & 1 == 0,
{
}

proof fn bv_clear_lowest(x: u64, l: u64, i: u64)
    by (bit_vector)
    requires
        l < 64,
        i < 64,
        (x >> l) & 1 == 1,
        x << ((64 - l) as u64) == 0,
    ensures
        x != 0,
        (((x & ((x - 1) as u64)) >> i) & 1 == 1) == ((x >> i) & 1 == 1 && i != l),
{
}

proof fn bv_swap(b: u64, i: u64)
    by (bit_vector)
    requires
        i < 64,
    ensures
        ((((b & 0xff) << 56) | ((b & 0xff00) << 40) | ((b & 0xff_0000) << 24) | ((b
            & 0xff00_0000) << 8) | ((b >> 8) & 0xff00_0000) | ((b >> 24) & 0xff_0000) | ((b >> 40)
            & 0xff00) | ((b >> 56) & 0xff)) >> i) & 1 == (b >> (i ^ 56)) & 1,
        (i ^ 56) < 64,
        i ^ 56 == (7 - i / 8) * 8 + i % 8,
{
}

/// Bits of a union, an intersection, a symmetric difference and a complement.
pub proof fn lemma_bit_ops(a: u64, b: u64)
    ensures
        forall|i: int| #[trigger] bit_at(a | b, i) == (bit_at(a, i) || bit_at(b, i)),
        forall|i: int| #[trigger] bit_at(a & b, i) == (bit_at(a, i) && bit_at(b, i)),
        forall|i: int| #[trigger] bit_at(a ^ b, i) == (bit_at(a, i) != bit_at(b, i)),
        forall|i: int| #[trigger] bit_at(!a, i) == (0 <= i < 64 && !bit_at(a, i)),
        forall|i: int| #[trigger] bit_at(a & !b, i) == (bit_at(a, i) && !bit_at(b, i)),
{
    assert forall|i: int| #[trigger] bit_at(a | b, i) == (bit_at(a, i) || bit_at(b, i)) by {
        if 0 <= i < 64 {
            bv_or(a, b, i as u64);
        }
    }
    assert forall|i: int| #[trigger] bit_at(a & b, i) == (bit_at(a, i) && bit_at(b, i)) by {
        if 0 <= i < 64 {
            bv_and(a, b, i as u64);
        }
    }
    assert forall|i: int| #[trigger] bit_at(a ^ b, i) == (bit_at(a, i) != bit_at(b, i)) by {
        if 0 <= i < 64 {
            bv_xor(a, b, i as u64);
        }
    }
    assert forall|i: int| #[trigger] bit_at(!a, i) == (0 <= i < 64 && !bit_at(a, i)) by {
        if 0 <= i < 64 {
            bv_not(a, i as u64);
        }
    }
    assert forall|i: int| #[trigger] bit_at(a & !b, i) == (bit_at(a, i) && !bit_at(b, i)) by {
        if 0 <= i < 64 {
            bv_not(b, i as u64);
            bv_and(a, !b, i as u64);
        }
    }
}

/// The word with only bit `s` set has exactly that bit.
pub proof fn lemma_bit_single(s: int)
    requires
        0 <= s < 64,
    ensures
        forall|i: int| #[trigger] bit_at(1u64 << (s as u64), i) == (i == s),
{
    assert forall|i: int| #[trigger] bit_at(1u64 << (s as u64), i) == (i == s) by {
        if 0 <= i < 64 {
            bv_single(s as u64, i as u64);
        }
    }
}

/// Zero has no bit set, and every other word has a lowest set bit, which
/// `trailing_zeros` finds.
pub proof fn lemma_bit_lowest(b: u64)
    ensures
        forall|i: int| !#[trigger] bit_at(0u64, i),
        b != 0 ==> is_lowest_bit(b, u64_trailing_zeros(b) as int),
        b == 0 ==> forall|i: int| !#[trigger] bit_at(b, i),
{
    assert forall|i: int| !#[trigger] bit_at(0u64, i) by {
        if 0 <= i < 64 {
            bv_zero(i as u64);
        }
    }
    axiom_u64_trailing_zeros(b);
    if b != 0 {
        let l = u64_trailing_zeros(b) as int;
        assert(bit_at(b, l));
        assert forall|j: int| bit_at(b, j) implies l <= j by {
            if j < l {
                assert((b >> (j as u64)) & 1u64 == 0u64);
            }
        }
    }
}

/// Two words with the same bits are equal.
pub proof fn lemma_bit_ext(a: u64, b: u64)
    requires
        forall|i: int| 0 <= i < 64 ==> bit_at(a, i) == bit_at(b, i),
    ensures
        a == b,
{
    let x = a ^ b;
    lemma_bit_ops(a, b);
    lemma_bit_lowest(x);
    if x != 0 {
        let l = u64_trailing_zeros(x) as int;
        assert(bit_at(x, l));
        assert(bit_at(a, l) != bit_at(b, l));
    }
    assert(a ^ b == 0 ==> a == b) by (bit_vector);
}

/// Clearing the lowest set bit with `x & (x - 1)` removes that bit and no other.
pub proof fn lemma_bit_clear_lowest(x: u64)
    requires
        x != 0,
    ensures
        forall|i: int| #[trigger]
            bit_at(x & ((x - 1) as u64), i) == (bit_at(x, i) && i != u64_trailing_zeros(x)),
{
    axiom_u64_trailing_zeros(x);
    let l = u64_trailing_zeros(x) as u64;
    assert forall|i: int| #[trigger]
        bit_at(x & ((x - 1) as u64), i) == (bit_at(x, i) && i != u64_trailing_zeros(x)) by {
        if 0 <= i < 64 {
            bv_clear_lowest(x, l, i as u64);
        }
    }
}

/// Byte reversal moves the bit at `mirrored_bit(i)` to position `i`.
pub proof fn lemma_bit_swapped(b: u64)
    ensures
        forall|i: int|
            0 <= i < 64 ==> #[trigger] bit_at(swapped_bytes(b), i) == bit_at(b, mirrored_bit(i)),
{
    assert forall|i: int| 0 <= i < 64 implies #[trigger] bit_at(swapped_bytes(b), i) == bit_at(
        b,
        mirrored_bit(i),
    ) by {
        bv_swap(b, i as u64);
    }
}

/// Position of the lowest set bit of `bits`, or 63 when no bit is set.
pub fn bit_scan_forward(bits: u64) -> (r: u8)
    ensures
        r < 64,
        bits != 0 ==> is_lowest_bit(bits, r as int),
        bits == 0 ==> r == 63,
{
    if bits == 0 {
        63
    } else {
        proof {
            lemma_bit_lowest(bits);
            axiom_u64_trailing_zeros(bits);
        }
        bits.trailing_zeros() as u8
    }
}

/// Character of position `k` in the 64-digit binary numeral of `input`, most
/// significant digit first.
pub open spec fn binary_digit(input: u64, k: int) -> char {
    if bit_at(input, 63 - k) {
        '1'
    } else {
        '0'
    }
}

/// The 64 binary digits of `input`, most significant first.
pub open spec fn binary_text(input: u64) -> Seq<char> {
    Seq::new(64, |k: int| binary_digit(input, k))
}

/// The binary digits of `input` in eight lines of eight digits, each line
/// closed by a line feed.
pub open spec fn board_text(input: u64) -> Seq<char> {
    Seq::new(
        72,
        |j: int|
            if j % 9 == 8 {
                '\n'
            } else {
                binary_digit(input, (j / 9) * 8 + j % 9)
            },
    )
}

fn digit_name(input: u64, k: u32) -> (s: &'static str)
    requires
        k < 64,
    ensures
        s@ == seq![binary_digit(input, k as int)],
{
    proof {
        reveal_strlit("1");
        reveal_strlit("0");
    }
    let shift: u32 = 63 - k;
    let s: &'static str = if (input >> shift) & 1 == 1 {
        "1"
    } else {
        "0"
    };
    assert(s@ =~= seq![binary_digit(input, k as int)]);
    s
}

/// The binary digits of `input` as eight lines of text, highest byte first.
pub fn string_u64(input: u64) -> (s: String)
    ensures
        s@ == board_text(input),
{
    let mut s: String = String::new();
    let mut row: u32 = 0;
    while row < 8
        invariant
            row <= 8,
            s@ == board_text(input).subrange(0, row * 9),
        decreases 8 - row,
    {
        let mut col: u32 = 0;
        while col < 8
            invariant
                row < 8,
                col <= 8,
                s@ == board_text(input).subrange(0, row * 9 + col),
            decreases 8 - col,
        {
            s.append(digit_name(input, row * 8 + col));
            assert(s@ =~= board_text(input).subrange(0, row * 9 + col + 1));
            col += 1;
        }
        proof {
            reveal_strlit("\n");
        }
        s.append("\n");
        assert(s@ =~= board_text(input).subrange(0, (row + 1) * 9));
        row += 1;
    }
    assert(s@ =~= board_text(input));
    s
}

/// The 64 binary digits of `input` as text.
pub fn format_u64(input: u64) -> (s: String)
    ensures
        s@ == binary_text(input),
{
    let mut s: String = String::new();
    let mut k: u32 = 0;
    while k < 64
        invariant
            k <= 64,
            s@ == binary_text(input).subrange(0, k as int),
        decreases 64 - k,
    {
        s.append(digit_name(input, k));
        assert(s@ =~= binary_text(input).subrange(0, k + 1));
        k += 1;
    }
    assert(s@ =~= binary_text(input));
    s
}

} // verus!
