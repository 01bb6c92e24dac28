use vstd::prelude::*;
use crate::color::Color;
use crate::square::Square;

verus! {

/// One key for each pair of a color and a square, at 64 times the color's
/// index plus the square.
pub const PIECES: [u64; 128] = [
    0x083610fb1cd7c6a5, 0xa37f944be9dfc323, 0xf6abbe2515a93cbb,
    0x014d5ce796d3ea21, 0x46762749c86b2be7, 0xaf8f7e5e5ed8dab6,
    0x650f5e0808e360fa, 0x92392e42419e33d7, 0x3f00957bf619fabd,
    0x277059f962b2ad51, 0xd5e6b582d55f02f8, 0x6a8fc1e493122621,
    0xb93875281e1a9e10, 0xfdccfe46fd5c65b6, 0x8fe7670648261096,
    0xfaf02033d4a8e4be, 0x4cdbf1c399a0d591, 0x15ab0047084d6a72,
    0x04c803b639b31ccf, 0xafc8b6cdc9cd9178, 0x9f6489ce28d8e4df,
    0x6e0f22474ea92533, 0xc67d7cfe40573fbc, 0xc6e2de374960b2d3,
    0x3dd9ff4b4cb20377, 0x2732a77574a34c97, 0x90109f006eb02f00,
    0xd1d6984031b00ea1, 0x2222761e1ff24f3c, 0x3046e312f5926dd8,
    0x2ee49120253af727, 0x868f3eb27661d798, 0xb5c64ce3d8887ca5,
    0xe7eb41a397897ef8, 0x8be01949fc53c6e3, 0xc431f31919856a9b,
    0x427fea13e941741b, 0x545ac69f3d1c6634, 0x5330e8f007f7a79c,
    0xe1017ea38e3edacc, 0x3fd71ac257d29c3a, 0x211161dd93d52f71,
    0x4b828af57d3a4472, 0xb757239537eb85e1, 0x70594501903e1f99,
    0xb29c35ab5d55ca77, 0xfee1f0e1793f9ae3, 0x1493c090bdf0e21d,
    0xff558a38b78e694e, 0xb2f1501e42d8c37f, 0x52e51685a29c6033,
    0xdf11a0bcc1c921d3, 0xa4517cced14456a7, 0xe8e7e7b5f94817a8,
    0xe5e60a7e4c3153a6, 0x699fc03bfc3ad0b3, 0x3c07bb3c37d3d153,
    0x6251bd8731c30cb2, 0xc3dea9c62c4edca8, 0x607c06832e583a9e,
    0xa2574452c4b0dd15, 0xdd1b4c11b5a1ad7d, 0x04a2634682c1aaad,
    0x8c165c27b93899a1, 0x7adfd3d554658027, 0xfd774b1530cf1356,
    0xfbebe15b01385c83, 0x062d679429588cb4, 0x6752115c2c5326e8,
    0x51b42635f0cdc9aa, 0xae93c5295995b5f8, 0xd7b0bcd44364a6c6,
    0x3b5ff8aaa4b255a9, 0x6c7f1261a536649a, 0xe8aa5791cc441371,
    0xd86b5875c7dcb86d, 0x9a46cfd78ed9b762, 0xa0e117135d96df38,
    0x9478ea3e9293fb5a, 0x03a733f03155429c, 0xd693ff9c09f873e8,
    0x2a3d8dad465630ca, 0x0edafa049fd439b0, 0x090729732b690837,
    0x5279c76801154a6a, 0x005d1b1daadc0167, 0xe8460df1498fcf95,
    0xc1f9c15076df65f5, 0x0e99df998d80d424, 0x82c9e119ed321b0a,
    0xa8dba34133a2004c, 0x3bb2efc57cd90111, 0xf0ec0e4129421d3c,
    0xc0782c93ad3142c5, 0xdd61e5b15ff6b122, 0x455dd5d93aed39d5,
    0x43e84734883942a1, 0xf3e1b7621ac2f5f5, 0x2179dcc18a2e0bc3,
    0xe53a1c459f32878b, 0xeba0a229f4d45afb, 0x7a8cfe54e35fc5e7,
    0x036543ee6e22fe10, 0x95e5fffd0af43e20, 0xbbcb0800930bfb77,
    0x9217dc6bb35ca3e6, 0xf2cb1ab44210a347, 0xc51cbb72992489db,
    0xbef5df21c347a8e1, 0x11ab10dbdfb93abe, 0x2bc604b273b84e04,
    0xb115232b2e73a311, 0x163477644bd47fb5, 0x4b254d8161f32805,
    0x63ef3c964052f0f8, 0x98dff249223f96ca, 0x6b07106fd6bceddc,
    0x768ff02e843aad10, 0xb577f171389c94bb, 0x366fbe11e18cee44,
    0x26968ac24a683664, 0x5cf0f35aa2aa6bbf, 0xbb13cca6b6051c0a,
    0xa8f18e41930fd83f, 0x2dd3abe39d4af1e3, 0xe5ef7fe684965153,
    0xcf8485194d6cb250, 0xe4665a4568064f04,
];

/// The key that is part of a position's hash while Black is to move.
pub const SIDE: u64 = 13442441245975073873;

/// The key of a piece of `color` on square `s`.
pub open spec fn piece_key(color: Color, s: int) -> u64 {
    PIECES[color.index() * 64 + s]
}

/// What the side to move adds to a hash: `SIDE` for Black, nothing for White.
pub open spec fn side_key(color: Color) -> u64 {
    match color {
        Color::White => 0,
        Color::Black => SIDE,
    }
}

/// Whether the piece with key number `k` is on the board: a white piece on
/// square `k` for `k` below 64, a black piece on square `k - 64` above.
pub open spec fn present(white: Set<int>, black: Set<int>, k: int) -> bool {
    (0 <= k < 64 && white.contains(k)) || (64 <= k < 128 && black.contains(k - 64))
}

/// XOR of the keys, among the first `n`, of the pieces on the board.
pub open spec fn pieces_hash(white: Set<int>, black: Set<int>, n: int) -> u64
    decreases n,
{
    if n <= 0 {
        0
    } else if present(white, black, n - 1) {
        pieces_hash(white, black, n - 1) ^ PIECES[n - 1]
    } else {
        pieces_hash(white, black, n - 1)
    }
}

/// The hash of a position: XOR of the keys of all pieces on the board, and of
/// `SIDE` when Black is to move.
pub open spec fn position_hash(white: Set<int>, black: Set<int>, side: Color) -> u64 {
    pieces_hash(white, black, 128) ^ side_key(side)
}

/// `s` with the membership of `x` changed.
pub open spec fn flip_member(s: Set<int>, x: int) -> Set<int> {
    if s.contains(x) {
        s.remove(x)
    } else {
        s.insert(x)
    }
}

proof fn bv_xor_swap(a: u64, b: u64, c: u64)
    by (bit_vector)
    ensures
        (a ^ b) ^ c == (a ^ c) ^ b,
        a ^ 0 == a,
        0 ^ a == a,
        (a ^ b) ^ b == a,
        a ^ a == 0,
{
}

/// XOR may be regrouped and reordered, and a value cancels itself.
pub proof fn lemma_xor(a: u64, b: u64, c: u64)
    ensures
        (a ^ b) ^ c == (a ^ c) ^ b,
        (a ^ b) ^ c == a ^ (b ^ c),
        a ^ b == b ^ a,
        a ^ 0 == a,
        0 ^ a == a,
        (a ^ b) ^ b == a,
        a ^ a == 0,
{
    bv_xor_swap(a, b, c);
    assert((a ^ b) ^ c == a ^ (b ^ c)) by (bit_vector);
    assert(a ^ b == b ^ a) by (bit_vector);
}

/// The hash of a board without pieces is zero.
pub proof fn lemma_pieces_hash_empty(n: int)
    ensures
        pieces_hash(Set::empty(), Set::empty(), n) == 0,
    decreases n,
{
    if n > 0 {
        lemma_pieces_hash_empty(n - 1);
    }
}

proof fn lemma_pieces_hash_flip(w1: Set<int>, b1: Set<int>, w2: Set<int>, b2: Set<int>, k: int, n: int)
    requires
        0 <= k < 128,
        0 <= n <= 128,
        forall|j: int| 0 <= j < 128 && j != k ==> present(w1, b1, j) == present(w2, b2, j),
        present(w1, b1, k) != present(w2, b2, k),
    ensures
        pieces_hash(w2, b2, n) == if n > k {
            pieces_hash(w1, b1, n) ^ PIECES[k]
        } else {
            pieces_hash(w1, b1, n)
        },
    decreases n,
{
    if n > 0 {
        lemma_pieces_hash_flip(w1, b1, w2, b2, k, n - 1);
        let h1 = pieces_hash(w1, b1, n - 1);
        if n - 1 == k {
            lemma_xor(h1, PIECES[k], PIECES[k]);
        } else if n - 1 > k {
            lemma_xor(h1, PIECES[k], PIECES[n - 1]);
        }
    }
}

/// Putting a piece on the board or taking one off changes the hash of the
/// pieces by that piece's key.
pub proof fn lemma_hash_flip_piece(white: Set<int>, black: Set<int>, color: Color, s: int)
    requires
        0 <= s < 64,
    ensures
        color == Color::White ==> pieces_hash(flip_member(white, s), black, 128) == pieces_hash(
            white,
            black,
            128,
        ) ^ piece_key(color, s),
        color == Color::Black ==> pieces_hash(white, flip_member(black, s), 128) == pieces_hash(
            white,
            black,
            128,
        ) ^ piece_key(color, s),
{
    match color {
        Color::White => {
            lemma_pieces_hash_flip(white, black, flip_member(white, s), black, s, 128);
        },
        Color::Black => {
            lemma_pieces_hash_flip(white, black, white, flip_member(black, s), 64 + s, 128);
        },
    }
}

/// Passing the move to the other side changes the side's part of the hash by
/// `SIDE`.
pub proof fn lemma_side_key_flip(color: Color)
    ensures
        side_key(color.flipped()) == side_key(color) ^ SIDE,
{
    lemma_xor(SIDE, SIDE, 0);
}

/// Looks up the key of a piece of `color` on `square`.
pub fn key_of(color: Color, square: Square) -> (k: u64)
    requires
        square.wf(),
    ensures
        k == piece_key(color, square.idx()),
{
    PIECES[color.to_index() * 64 + square.to_index()]
}

/// The side's part of a hash.
pub fn key_of_side(color: Color) -> (k: u64)
    ensures
        k == side_key(color),
{
    match color {
        Color::White => 0,
        Color::Black => SIDE,
    }
}

} // verus!
