use vstd::prelude::*;
use crate::board::Board;
use crate::cannon_move::BitMove;

pub mod hash;

verus! {

/// Number of entries that a search asks for.
pub const TT_SIZE: usize = 10000000;

/// The most entries that a table can be asked for.
pub const MAX_TT_SIZE: usize = 0x8000_0000;

/// The stored score is the exact value of the position.
pub const FLAG_EXACT: u8 = 0x1;

/// The stored score is an upper bound of the position's value.
pub const FLAG_UPPER: u8 = 0x2;

/// The stored score is a lower bound of the position's value.
pub const FLAG_LOWER: u8 = 0x3;

/// The bits of a flag that hold the kind of bound.
pub const FLAGS: u8 = 0x3;

/// What one generation adds to a table's age.
pub const AGE_INC: u8 = FLAGS + 1;

/// One slot of the table: what a search found out about a position. A slot
/// whose flag names no kind of bound is empty.
#[derive(Copy, Clone, Debug, PartialEq, Eq, Structural)]
pub struct TTEntry {
    pub hash: u64,
    pub mv: BitMove,
    pub score: i16,
    pub depth: u8,
    pub flag: u8,
    pub age: u8,
}

impl Default for TTEntry {
    fn default() -> (e: TTEntry)
        ensures
            e == TTEntry::empty(),
    {
        TTEntry { hash: 0, mv: BitMove { data: 0 }, score: 0, depth: 0, flag: 0, age: 0 }
    }
}

impl TTEntry {
    /// The empty slot.
    pub open spec fn empty() -> TTEntry {
        TTEntry { hash: 0, mv: BitMove { data: 0 }, score: 0, depth: 0, flag: 0, age: 0 }
    }

    /// The kind of bound that the entry's flag names, or 0 for none.
    pub open spec fn kind(self) -> int {
        self.flag as int % 4
    }

    /// Whether the slot holds a result.
    pub open spec fn occupied(self) -> bool {
        self.kind() != 0
    }

    /// Whether the entry holds a move.
    pub fn is_some(&self) -> (r: bool)
        ensures
            r == (self.mv.data != 0),
    {
        self.mv.data != 0
    }

    /// Whether the entry was stored for the position with this hash.
    pub fn is_hit(&self, hash: u64) -> (r: bool)
        ensures
            r == (self.hash == hash),
    {
        self.hash == hash
    }

    /// Whether the score is the exact value of the position.
    pub fn is_exact(&self) -> (r: bool)
        ensures
            r == (self.kind() == FLAG_EXACT),
    {
        self.flag % 4 == FLAG_EXACT
    }

    /// Whether the score is a lower bound.
    pub fn is_lower(&self) -> (r: bool)
        ensures
            r == (self.kind() == FLAG_LOWER),
    {
        self.flag % 4 == FLAG_LOWER
    }

    /// Whether the score is an upper bound.
    pub fn is_upper(&self) -> (r: bool)
        ensures
            r == (self.kind() == FLAG_UPPER),
    {
        self.flag % 4 == FLAG_UPPER
    }

    /// The stored score.
    pub fn score(&self) -> (s: i16)
        ensures
            s == self.score,
    {
        self.score
    }
}

/// Whether `n` is a power of two.
pub open spec fn is_power_of_two(n: int) -> bool
    decreases n,
{
    n == 1 || (n > 1 && n % 2 == 0 && is_power_of_two(n / 2))
}

/// Of two powers of two, the larger is at least twice the smaller.
pub proof fn lemma_power_of_two_gap(p: int, q: int)
    requires
        is_power_of_two(p),
        is_power_of_two(q),
        p < q,
    ensures
        2 * p <= q,
        is_power_of_two(2 * p),
    decreases p,
{
    if p > 1 {
        lemma_power_of_two_gap(p / 2, q / 2);
    }
}

/// The most entries that a table can be asked for is a power of two.
pub proof fn lemma_max_is_power_of_two()
    ensures
        is_power_of_two(MAX_TT_SIZE as int),
{
    reveal_with_fuel(is_power_of_two, 33);
}

/// How much older than the table an entry is, in ages that wrap at 256.
pub open spec fn age_bonus(now: u8, then: u8) -> int {
    if now >= then {
        now - then
    } else {
        now - then + 256
    }
}

/// The content of a table: its slots and its age.
pub struct Table {
    pub slots: Seq<TTEntry>,
    pub age: u8,
}

impl Table {
    /// A table has a power of two of slots, and at least one.
    pub open spec fn wf(self) -> bool {
        0 < self.slots.len() <= MAX_TT_SIZE && is_power_of_two(self.slots.len() as int)
    }

    /// The table of `n` empty slots.
    pub open spec fn fresh(n: nat, age: u8) -> Table {
        Table { slots: Seq::new(n, |i: int| TTEntry::empty()), age }
    }

    /// The slot of a hash: the hash's low bits.
    pub open spec fn slot(self, hash: u64) -> int {
        (hash & ((self.slots.len() - 1) as u64)) as int
    }

    /// What a look-up of `hash` returns: the entry of the hash's slot with
    /// the table's age, if the slot holds a result for exactly this hash.
    pub open spec fn probe(self, hash: u64) -> Option<TTEntry> {
        let e = self.slots[self.slot(hash)];
        if e.occupied() && e.hash == hash {
            Some(TTEntry { age: self.age, ..e })
        } else {
            None
        }
    }

    /// The table after a look-up of `hash`: an entry that was found has the
    /// table's age.
    pub open spec fn touched(self, hash: u64) -> Table {
        match self.probe(hash) {
            Some(e) => Table { slots: self.slots.update(self.slot(hash), e), ..self },
            None => self,
        }
    }

    /// Whether a result of depth `depth` for `hash` replaces what its slot
    /// holds: it does unless the slot holds a deeper result, where each
    /// generation that the entry is old counts as `AGE_INC` plies.
    pub open spec fn replaces(self, hash: u64, depth: u8) -> bool {
        let e = self.slots[self.slot(hash)];
        depth + age_bonus(self.age, e.age) >= e.depth
    }

    /// The table after a result for `hash` was offered to it.
    pub open spec fn stored(self, hash: u64, score: i16, mv: BitMove, flag: u8, depth: u8) -> Table {
        if self.replaces(hash, depth) {
            Table {
                slots: self.slots.update(
                    self.slot(hash),
                    TTEntry { hash, mv, score, depth, flag, age: self.age },
                ),
                ..self
            }
        } else {
            self
        }
    }

    /// The table one generation later.
    pub open spec fn aged(self) -> Table {
        Table { age: ((self.age + AGE_INC) % 256) as u8, ..self }
    }

    /// The slot of a hash is a slot of the table.
    pub proof fn lemma_slot(self, hash: u64)
        requires
            self.wf(),
        ensures
            0 <= self.slot(hash) < self.slots.len(),
    {
        let mask = (self.slots.len() - 1) as u64;
        assert(hash & mask <= mask) by (bit_vector);
    }

    /// A result that is stored with a kind of bound is found by the next
    /// look-up of its hash, with its move, score, depth and flag.
    pub proof fn lemma_stored_is_found(
        self,
        hash: u64,
        score: i16,
        mv: BitMove,
        flag: u8,
        depth: u8,
    )
        requires
            self.wf(),
            self.replaces(hash, depth),
            flag % 4 != 0,
        ensures
            self.stored(hash, score, mv, flag, depth).probe(hash) == Some(
                TTEntry { hash, mv, score, depth, flag, age: self.age },
            ),
    {
        self.lemma_slot(hash);
    }

    /// An empty slot takes every result: what is stored in a fresh table
    /// with a kind of bound is found by the next look-up of its hash.
    pub proof fn lemma_fresh_stored_is_found(
        n: nat,
        age: u8,
        hash: u64,
        score: i16,
        mv: BitMove,
        flag: u8,
        depth: u8,
    )
        requires
            Table::fresh(n, age).wf(),
            flag % 4 != 0,
        ensures
            Table::fresh(n, age).stored(hash, score, mv, flag, depth).probe(hash) == Some(
                TTEntry { hash, mv, score, depth, flag, age },
            ),
    {
        Table::fresh(n, age).lemma_slot(hash);
        Table::fresh(n, age).lemma_stored_is_found(hash, score, mv, flag, depth);
    }

    /// A look-up in a fresh table finds nothing, whatever the hash.
    pub proof fn lemma_fresh_misses(n: nat, age: u8, hash: u64)
        requires
            Table::fresh(n, age).wf(),
        ensures
            Table::fresh(n, age).probe(hash).is_none(),
            Table::fresh(n, age).touched(hash) == Table::fresh(n, age),
    {
        Table::fresh(n, age).lemma_slot(hash);
    }

    /// Look-ups and stores keep the number of slots and the age.
    pub proof fn lemma_keeps_shape(self, hash: u64, score: i16, mv: BitMove, flag: u8, depth: u8)
        requires
            self.wf(),
        ensures
            self.touched(hash).wf(),
            self.touched(hash).slots.len() == self.slots.len(),
            self.touched(hash).age == self.age,
            self.stored(hash, score, mv, flag, depth).wf(),
            self.stored(hash, score, mv, flag, depth).slots.len() == self.slots.len(),
            self.stored(hash, score, mv, flag, depth).age == self.age,
    {
        self.lemma_slot(hash);
    }
}

/// A direct-mapped cache of search results, keyed by the low bits of a
/// position's hash.
pub struct TTable {
    entries: Vec<TTEntry>,
    index_mask: usize,
    age: u8,
}

impl View for TTable {
    type V = Table;

    closed spec fn view(&self) -> Table {
        Table { slots: self.entries@, age: self.age }
    }
}

impl Default for TTable {
    /// A table without slots; it has to be allocated before its first use.
    fn default() -> (t: TTable)
        ensures
            t@.slots.len() == 0,
            t@.age == 0,
    {
        TTable { entries: Vec::new(), index_mask: 0, age: 0 }
    }
}

impl TTable {
    /// The table was allocated: it has a power of two of slots, and its mask
    /// selects among them.
    pub closed spec fn wf(&self) -> bool {
        self@.wf() && self.index_mask + 1 == self.entries@.len()
    }

    /// What the invariant says of the content.
    pub proof fn lemma_wf(&self)
        requires
            self.wf(),
        ensures
            self@.wf(),
    {
    }

    /// Starts a new generation: what is in the table becomes easier to
    /// replace.
    pub fn increment_age(&mut self)
        ensures
            final(self)@ == old(self)@.aged(),
            old(self).wf() ==> final(self).wf(),
    {
        self.age = self.age.wrapping_add(AGE_INC);
    }

    /// Number of slots of the table.
    pub fn capacity(&self) -> (n: usize)
        ensures
            n == self@.slots.len(),
    {
        self.entries.len()
    }

    /// Gives the table the least power of two of slots that is at least
    /// `size`, all of them empty. What the table held is lost; its age stays.
    pub fn allocate(&mut self, size: usize)
        requires
            size <= MAX_TT_SIZE,
        ensures
            final(self).wf(),
            final(self)@ == Table::fresh(final(self)@.slots.len(), old(self)@.age),
            final(self)@.slots.len() >= size,
            final(self)@.slots.len() < 2 * size || final(self)@.slots.len() == 1,
            forall|hash: u64| (#[trigger] final(self)@.probe(hash)).is_none(),
            forall|hash: u64, depth: u8| #[trigger] final(self)@.replaces(hash, depth),
    {
        let mut entries: usize = 1;
        while entries < size
            invariant
                size <= MAX_TT_SIZE,
                1 <= entries <= MAX_TT_SIZE,
                is_power_of_two(entries as int),
                entries < 2 * size || entries == 1,
            decreases MAX_TT_SIZE - entries,
        {
            proof {
                lemma_max_is_power_of_two();
                lemma_power_of_two_gap(entries as int, MAX_TT_SIZE as int);
            }
            entries = entries * 2;
        }
        self.entries = vec![TTEntry::default(); entries];
        self.index_mask = entries - 1;
        proof {
            assert(self@.slots =~= Table::fresh(entries as nat, self.age).slots);
            assert forall|hash: u64| (#[trigger] self@.probe(hash)).is_none() by {
                Table::lemma_fresh_misses(entries as nat, self.age, hash);
            }
            assert forall|hash: u64, depth: u8| #[trigger] self@.replaces(hash, depth) by {
                self@.lemma_slot(hash);
            }
        }
    }

    /// Looks `hash` up. An entry that is found gets the table's age, which
    /// keeps it from being replaced as an old one.
    pub fn get(&mut self, hash: u64) -> (r: Option<TTEntry>)
        requires
            old(self).wf(),
        ensures
            final(self).wf(),
            r == old(self)@.probe(hash),
            final(self)@ == old(self)@.touched(hash),
            0 <= old(self)@.slot(hash) < old(self)@.slots.len(),
            final(self)@.probe(hash) == r,
    {
        proof {
            self@.lemma_slot(hash);
            self@.lemma_keeps_shape(hash, 0, BitMove { data: 0 }, 0, 0);
        }
        let slot: usize = (hash & (self.index_mask as u64)) as usize;
        let entry = self.entries[slot];
        if entry.flag % 4 != 0 && entry.is_hit(hash) {
            let found = TTEntry {
                hash: entry.hash,
                mv: entry.mv,
                score: entry.score,
                depth: entry.depth,
                flag: entry.flag,
                age: self.age,
            };
            self.entries[slot] = found;
            assert(self@.slots =~= old(self)@.touched(hash).slots);
            Some(found)
        } else {
            None
        }
    }

    /// Offers the table a result for the position of `board`. The result
    /// replaces what the slot holds unless that is a deeper result; each
    /// generation that the old entry was not used counts against it.
    pub fn insert(&mut self, board: &Board, score: i16, mv: BitMove, flag: u8, depth: u8)
        requires
            old(self).wf(),
            board.wf(),
        ensures
            final(self).wf(),
            final(self)@ == old(self)@.stored(board@.hash(), score, mv, flag, depth),
            0 <= old(self)@.slot(board@.hash()) < old(self)@.slots.len(),
            old(self)@.replaces(board@.hash(), depth) ==> final(self)@.slots[old(self)@.slot(
                board@.hash(),
            )] == (TTEntry { hash: board@.hash(), mv, score, depth, flag, age: old(self)@.age }),
            old(self)@.replaces(board@.hash(), depth) && flag % 4 != 0 ==> final(self)@.probe(
                board@.hash(),
            ) == Some(
                TTEntry { hash: board@.hash(), mv, score, depth, flag, age: old(self)@.age },
            ),
            !old(self)@.replaces(board@.hash(), depth) ==> final(self)@ == old(self)@,
    {
        let hash = board.hash();
        proof {
            self@.lemma_slot(hash);
            self@.lemma_keeps_shape(hash, score, mv, flag, depth);
            if self@.replaces(hash, depth) && flag % 4 != 0 {
                self@.lemma_stored_is_found(hash, score, mv, flag, depth);
            }
        }
        let slot: usize = (hash & (self.index_mask as u64)) as usize;
        let entry = self.entries[slot];
        let bonus: u8 = self.age.wrapping_sub(entry.age);
        if depth as u16 + bonus as u16 >= entry.depth as u16 {
            self.entries[slot] = TTEntry { hash, mv, score, depth, flag, age: self.age };
            assert(self@.slots =~= old(self)@.stored(hash, score, mv, flag, depth).slots);
        }
    }
}

} // verus!
