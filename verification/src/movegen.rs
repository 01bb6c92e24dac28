use vstd::prelude::*;
use crate::bitboard::BitBoard;
use crate::board::Board;
use crate::cannon_move::BitMove;
use crate::rules::{
    between_set, collect, first_number, lemma_captures_are_filtered,
    lemma_class_from, lemma_collect_none, lemma_collect_split, lemma_moves_from, moves_of,
    moves_with, MoveClass,
};
use crate::square::Square;
use crate::tables::{
    between, distance_ring, front, retreats, shot_blocker, shot_body, shot_targets, sides, Tables,
};

verus! {

/// The most moves that a list holds.
pub const MAX_MOVES: usize = 64;

/// A list of at most `MAX_MOVES` moves, with a cursor for reading it once.
pub struct MoveList {
    pub moves: [BitMove; 64],
    pub len: usize,
    pub idx: usize,
}

impl View for MoveList {
    type V = Seq<BitMove>;

    /// The moves of the list, in the order in which they were pushed.
    open spec fn view(&self) -> Seq<BitMove> {
        Seq::new(self.len as nat, |i: int| self.moves[i])
    }
}

impl Default for MoveList {
    fn default() -> (l: MoveList)
        ensures
            l.wf(),
            l@ == Seq::<BitMove>::empty(),
            l.len == 0,
            l.idx == 0,
    {
        let l = MoveList { moves: [BitMove { data: 0 };64], len: 0, idx: 0 };
        assert(l@ =~= Seq::<BitMove>::empty());
        l
    }
}

impl MoveList {
    /// The list is within its capacity and its cursor within the list.
    pub open spec fn wf(&self) -> bool {
        self.len <= MAX_MOVES && self.idx <= self.len
    }

    /// The list holds as many moves as its length says.
    pub proof fn lemma_len(&self)
        ensures
            self@.len() == self.len,
    {
    }

    /// The list of the given moves, which must not be more than a list
    /// holds.
    pub fn from_moves(moves: &Vec<BitMove>) -> (l: MoveList)
        requires
            moves@.len() <= MAX_MOVES,
        ensures
            l.wf(),
            l@ == moves@,
            l.idx == 0,
    {
        let mut list = MoveList::default();
        let mut i: usize = 0;
        while i < moves.len()
            invariant
                list.wf(),
                list.idx == 0,
                i <= moves@.len() <= MAX_MOVES,
                list.len == i,
                list@ == moves@.subrange(0, i as int),
            decreases moves@.len() - i,
        {
            list.push(moves[i]);
            i += 1;
            assert(list@ =~= moves@.subrange(0, i as int));
        }
        assert(list@ =~= moves@);
        list
    }

    /// Appends `mv` to a list that is not full.
    pub fn push(&mut self, mv: BitMove)
        requires
            old(self).wf(),
            old(self).len < MAX_MOVES,
        ensures
            final(self).wf(),
            final(self)@ == old(self)@.push(mv),
            final(self).len == old(self).len + 1,
            final(self).idx == old(self).idx,
    {
        self.moves[self.len] = mv;
        self.len += 1;
        assert(self@ =~= old(self)@.push(mv));
    }

    /// Number of moves in the list.
    pub fn len(&self) -> (n: usize)
        ensures
            n == self.len,
            n == self@.len(),
    {
        self.len
    }

    /// Whether the list holds no move.
    pub fn is_empty(&self) -> (r: bool)
        ensures
            r == (self@.len() == 0),
    {
        self.len == 0
    }

    /// The move at position `i`.
    pub fn get(&self, i: usize) -> (m: BitMove)
        requires
            self.wf(),
            i < self.len,
        ensures
            m == self@[i as int],
    {
        self.moves[i]
    }

    /// The move under the cursor, which then advances; `None` at the end of
    /// the list.
    pub fn next(&mut self) -> (r: Option<BitMove>)
        requires
            old(self).wf(),
        ensures
            final(self).wf(),
            final(self)@ == old(self)@,
            final(self).len == old(self).len,
            old(self).idx < old(self).len ==> r == Some(old(self)@[old(self).idx as int])
                && final(self).idx == old(self).idx + 1,
            old(self).idx >= old(self).len ==> r.is_none() && final(self).idx == old(self).idx,
    {
        if self.idx >= self.len {
            None
        } else {
            let m = self.moves[self.idx];
            self.idx += 1;
            assert(self@ =~= old(self)@);
            Some(m)
        }
    }
}

/// Whether the squares between `s` and `t` allow the move: for a jump they
/// hold two pieces of the mover's side, for a retreat one of them holds no
/// piece.
pub open spec fn path_ok(jump: bool, own: Set<int>, occupied: Set<int>, s: int, t: int) -> bool {
    if jump {
        between_set(s, t) != Set::<int>::empty() && between_set(s, t).subset_of(own)
    } else {
        between_set(s, t).difference(occupied) != Set::<int>::empty()
    }
}

/// The move that `targets` gives for target square `t` from `src`.
pub open spec fn target_move(targets: Set<int>, src: int, shot: bool, t: int) -> Option<BitMove> {
    if targets.contains(t) {
        Some(BitMove::of(src, t, shot))
    } else {
        None
    }
}

/// The generator of the moves of a position.
pub struct MoveGen {}

impl MoveGen {
    /// Keeps of the candidate squares those that the squares on the way
    /// from `src` allow.
    fn clear_paths(
        tables: &Tables,
        own: BitBoard,
        occupied: BitBoard,
        src: Square,
        candidates: BitBoard,
        jump: bool,
    ) -> (r: BitBoard)
        requires
            tables.wf(),
            src.wf(),
        ensures
            forall|t: int|
                r@.contains(t) == (candidates@.contains(t) && path_ok(
                    jump,
                    own@,
                    occupied@,
                    src.idx(),
                    t,
                )),
    {
        let mut rest: BitBoard = candidates;
        let mut kept: BitBoard = BitBoard::empty();
        proof {
            candidates.lemma_view();
        }
        while rest.is_not_empty()
            invariant
                tables.wf(),
                src.wf(),
                rest@.finite(),
                rest@.subset_of(candidates@),
                forall|t: int| candidates@.contains(t) ==> 0 <= t < 64,
                forall|t: int|
                    kept@.contains(t) == (candidates@.contains(t) && !rest@.contains(t) && path_ok(
                        jump,
                        own@,
                        occupied@,
                        src.idx(),
                        t,
                    )),
            decreases rest@.len(),
        {
            let dst = rest.pop_lsb();
            let path = between(tables, src, dst);
            assert(Square(dst.idx() as u8) == dst);
            let open: bool = if jump {
                path.is_not_empty() && path.subset_of(own)
            } else {
                path.difference(occupied).is_not_empty()
            };
            if open {
                kept = kept.union(BitBoard::from_square(dst));
            }
        }
        kept
    }

    /// The squares that the piece of `slot` may move to, or shoot at, by the
    /// rule of `class`.
    fn targets(
        board: &Board,
        tables: &Tables,
        class: MoveClass,
        slot: usize,
        captures_only: bool,
    ) -> (r: BitBoard)
        requires
            board.wf(),
            tables.wf(),
            slot < class.slots(),
        ensures
            forall|t: int|
                0 <= t < 64 ==> r@.contains(t) == class.at(
                    board@,
                    captures_only,
                    slot * 64 + t,
                ).is_some(),
            forall|t: int| r@.contains(t) ==> 0 <= t < 64,
    {
        let side = board.side_to_move();
        let own = board.player_pieces();
        let enemy = board.enemy_pieces();
        let prey = enemy.union(board.enemy_castle());
        let occupied = board.pieces();
        let src = Square(
            (match class {
                MoveClass::Shot => slot / 8,
                _ => slot,
            }) as u8,
        );
        proof {
            board.lemma_wf();
        }
        let found = if !own.contains(src) {
            BitBoard::empty()
        } else {
            match class {
                MoveClass::SideCapture => sides(tables, side, src).intersect(prey).difference(own),
                MoveClass::Forward => front(tables, side, src).difference(own),
                MoveClass::Jump => {
                    let free = distance_ring(tables, src, 3).difference(
                        board.pieces_with_castles(),
                    );
                    Self::clear_paths(tables, own, occupied, src, free, true)
                },
                MoveClass::Retreat => {
                    let near = front(tables, side, src).union(sides(tables, side, src));
                    if near.intersect(enemy).is_not_empty() {
                        let free = retreats(tables, side, src).difference(occupied);
                        Self::clear_paths(tables, own, occupied, src, free, false)
                    } else {
                        BitBoard::empty()
                    }
                },
                MoveClass::Shot => {
                    let dir: usize = slot % 8;
                    let body = shot_body(tables, src, dir);
                    if shot_blocker(tables, src, dir).difference(occupied).is_not_empty()
                        && body.is_not_empty() && body.subset_of(own) {
                        shot_targets(tables, src, dir).intersect(prey)
                    } else {
                        BitBoard::empty()
                    }
                },
            }
        };
        let r = if captures_only {
            found.intersect(prey)
        } else {
            found
        };
        proof {
            r.lemma_view();
            assert forall|t: int| 0 <= t < 64 implies r@.contains(t) == class.at(
                board@,
                captures_only,
                slot * 64 + t,
            ).is_some() by {
                let k = slot * 64 + t;
                assert(k / 64 == slot && k % 64 == t);
            }
        }
        r
    }

    /// Appends the moves from `src` to each of `targets`, lowest square
    /// first, unless the list runs full.
    fn push_targets(
        moves: &mut MoveList,
        src: Square,
        targets: BitBoard,
        shot: bool,
        Ghost(f): Ghost<spec_fn(int) -> Option<BitMove>>,
        Ghost(base): Ghost<int>,
    ) -> (ok: bool)
        requires
            old(moves).wf(),
            src.wf(),
            forall|t: int|
                0 <= t < 64 ==> #[trigger] f(base + t) == target_move(
                    targets@,
                    src.idx(),
                    shot,
                    t,
                ),
        ensures
            final(moves).wf(),
            final(moves).idx == old(moves).idx,
            ok ==> final(moves)@ == old(moves)@ + collect(f, base, base + 64),
            !ok ==> old(moves)@.len() + collect(f, base, base + 64).len() > MAX_MOVES,
            old(moves).len == 0 ==> ok,
    {
        let mut rest: BitBoard = targets;
        let ghost mut cur: int = 0;
        proof {
            targets.lemma_view();
            moves.lemma_len();
            assert(moves@ =~= old(moves)@ + collect(f, base, base));
        }
        while rest.is_not_empty()
            invariant
                moves.wf(),
                src.wf(),
                moves.idx == old(moves).idx,
                0 <= cur <= 64,
                rest@.finite(),
                forall|t: int| rest@.contains(t) == (targets@.contains(t) && cur <= t),
                forall|t: int| targets@.contains(t) ==> 0 <= t < 64,
                forall|t: int|
                    0 <= t < 64 ==> #[trigger] f(base + t) == target_move(
                        targets@,
                        src.idx(),
                        shot,
                        t,
                    ),
                moves@ == old(moves)@ + collect(f, base, base + cur),
                moves@.len() <= old(moves)@.len() + cur,
            decreases rest@.len(),
        {
            let ghost before = rest;
            let dst = rest.pop_lsb();
            let ghost t = dst.idx();
            proof {
                moves.lemma_len();
                assert(before@.contains(t));
                assert forall|k: int| base + cur <= k < base + t implies (#[trigger] f(
                    k,
                )).is_none() by {
                    let j = k - base;
                    assert(f(base + j) == target_move(targets@, src.idx(), shot, j));
                    if targets@.contains(j) {
                        assert(before@.contains(j));
                    }
                }
                lemma_collect_none(f, base + cur, base + t);
                lemma_collect_split(f, base, base + cur, base + t);
                assert(f(base + t) == Some(BitMove::of(src.idx(), t, shot)));
                assert(collect(f, base, base + t + 1) == collect(f, base, base + t).push(
                    BitMove::of(src.idx(), t, shot),
                ));
                lemma_collect_split(f, base, base + t + 1, base + 64);
            }
            if moves.len >= MAX_MOVES {
                return false;
            }
            let mv = if shot {
                BitMove::make_shot(src, dst)
            } else {
                BitMove::make(src, dst)
            };
            moves.push(mv);
            proof {
                cur = t + 1;
                assert(moves@ =~= old(moves)@ + collect(f, base, base + cur));
            }
        }
        proof {
            assert forall|k: int| base + cur <= k < base + 64 implies (#[trigger] f(
                k,
            )).is_none() by {
                let j = k - base;
                assert(f(base + j) == target_move(targets@, src.idx(), shot, j));
            }
            lemma_collect_none(f, base + cur, base + 64);
            lemma_collect_split(f, base, base + cur, base + 64);
            assert(moves@ =~= old(moves)@ + collect(f, base, base + 64));
        }
        true
    }

    /// Appends the moves of one class, slot by slot, unless the list runs
    /// full.
    fn generate_class(
        moves: &mut MoveList,
        board: &Board,
        tables: &Tables,
        class: MoveClass,
        captures_only: bool,
    ) -> (ok: bool)
        requires
            old(moves).wf(),
            board.wf(),
            tables.wf(),
        ensures
            final(moves).wf(),
            final(moves).idx == old(moves).idx,
            ok ==> final(moves)@ == old(moves)@ + class.moves(board@, captures_only),
            !ok ==> old(moves)@.len() + class.moves(board@, captures_only).len() > MAX_MOVES,
    {
        let ghost f = |k: int| class.at(board@, captures_only, k);
        let slots: usize = match class {
            MoveClass::Shot => 512,
            _ => 64,
        };
        let mut slot: usize = 0;
        proof {
            assert(moves@ =~= old(moves)@ + collect(f, 0, 0));
        }
        while slot < slots
            invariant
                moves.wf(),
                board.wf(),
                tables.wf(),
                moves.idx == old(moves).idx,
                slots == class.slots(),
                slot <= slots,
                f == (|k: int| class.at(board@, captures_only, k)),
                moves@ == old(moves)@ + collect(f, 0, slot * 64),
            decreases slots - slot,
        {
            let found = Self::targets(board, tables, class, slot, captures_only);
            let src = Square(
                (match class {
                    MoveClass::Shot => slot / 8,
                    _ => slot,
                }) as u8,
            );
            let shot: bool = match class {
                MoveClass::Shot => true,
                _ => false,
            };
            proof {
                assert forall|t: int| 0 <= t < 64 implies #[trigger] f(slot * 64 + t)
                    == target_move(found@, src.idx(), shot, t) by {
                    let k = slot * 64 + t;
                    assert(k / 64 == slot && k % 64 == t);
                }
                lemma_collect_split(f, 0, slot * 64, slot * 64 + 64);
                lemma_collect_split(f, 0, slot * 64 + 64, slots * 64);
            }
            let ghost before = moves@;
            let ok = Self::push_targets(moves, src, found, shot, Ghost(f), Ghost(slot * 64));
            if !ok {
                return false;
            }
            proof {
                assert(moves@ =~= old(moves)@ + collect(f, 0, (slot + 1) * 64));
            }
            slot += 1;
        }
        true
    }

    fn generate_side_moves(moves: &mut MoveList, board: &Board, tables: &Tables) -> (ok: bool)
        requires
            old(moves).wf(),
            board.wf(),
            tables.wf(),
        ensures
            final(moves).wf(),
            final(moves).idx == old(moves).idx,
            ok ==> final(moves)@ == old(moves)@ + MoveClass::SideCapture.moves(board@, false),
            !ok ==> old(moves)@.len() + MoveClass::SideCapture.moves(board@, false).len()
                > MAX_MOVES,
    {
        Self::generate_class(moves, board, tables, MoveClass::SideCapture, false)
    }

    fn generate_cannon_shots(moves: &mut MoveList, board: &Board, tables: &Tables) -> (ok: bool)
        requires
            old(moves).wf(),
            board.wf(),
            tables.wf(),
        ensures
            final(moves).wf(),
            final(moves).idx == old(moves).idx,
            ok ==> final(moves)@ == old(moves)@ + MoveClass::Shot.moves(board@, false),
            !ok ==> old(moves)@.len() + MoveClass::Shot.moves(board@, false).len() > MAX_MOVES,
    {
        Self::generate_class(moves, board, tables, MoveClass::Shot, false)
    }

    fn generate_forward_moves(moves: &mut MoveList, board: &Board, tables: &Tables) -> (ok: bool)
        requires
            old(moves).wf(),
            board.wf(),
            tables.wf(),
        ensures
            final(moves).wf(),
            final(moves).idx == old(moves).idx,
            ok ==> final(moves)@ == old(moves)@ + MoveClass::Forward.moves(board@, false),
            !ok ==> old(moves)@.len() + MoveClass::Forward.moves(board@, false).len() > MAX_MOVES,
    {
        Self::generate_class(moves, board, tables, MoveClass::Forward, false)
    }

    fn generate_cannon_jumps(moves: &mut MoveList, board: &Board, tables: &Tables) -> (ok: bool)
        requires
            old(moves).wf(),
            board.wf(),
            tables.wf(),
        ensures
            final(moves).wf(),
            final(moves).idx == old(moves).idx,
            ok ==> final(moves)@ == old(moves)@ + MoveClass::Jump.moves(board@, false),
            !ok ==> old(moves)@.len() + MoveClass::Jump.moves(board@, false).len() > MAX_MOVES,
    {
        Self::generate_class(moves, board, tables, MoveClass::Jump, false)
    }

    fn generate_retreats(moves: &mut MoveList, board: &Board, tables: &Tables) -> (ok: bool)
        requires
            old(moves).wf(),
            board.wf(),
            tables.wf(),
        ensures
            final(moves).wf(),
            final(moves).idx == old(moves).idx,
            ok ==> final(moves)@ == old(moves)@ + MoveClass::Retreat.moves(board@, false),
            !ok ==> old(moves)@.len() + MoveClass::Retreat.moves(board@, false).len() > MAX_MOVES,
    {
        Self::generate_class(moves, board, tables, MoveClass::Retreat, false)
    }

    /// All moves of the side to move, in the order side captures, shots,
    /// advances, jumps, retreats; `None` if and only if they are more than a
    /// list holds.
    pub fn try_generate(board: &Board, tables: &Tables) -> (r: Option<MoveList>)
        requires
            board.wf(),
            tables.wf(),
        ensures
            r.is_some() == (moves_of(board@).len() <= MAX_MOVES),
            r matches Some(l) ==> l@ == moves_of(board@) && l.wf() && l.idx == 0,
    {
        let mut list = MoveList::default();
        let ghost pos = board@;
        let ghost a = MoveClass::SideCapture.moves(pos, false);
        let ghost b = MoveClass::Shot.moves(pos, false);
        let ghost c = MoveClass::Forward.moves(pos, false);
        let ghost d = MoveClass::Jump.moves(pos, false);
        let ghost e = MoveClass::Retreat.moves(pos, false);
        if !Self::generate_side_moves(&mut list, board, tables) {
            return None;
        }
        assert(list@ =~= a);
        if !Self::generate_cannon_shots(&mut list, board, tables) {
            return None;
        }
        if !Self::generate_forward_moves(&mut list, board, tables) {
            return None;
        }
        if !Self::generate_cannon_jumps(&mut list, board, tables) {
            return None;
        }
        if !Self::generate_retreats(&mut list, board, tables) {
            return None;
        }
        proof {
            list.lemma_len();
            assert(list@ =~= moves_of(pos));
        }
        Some(list)
    }

    /// All moves of the side to move, for a position that has no more of
    /// them than a list holds.
    pub fn generate(board: &Board, tables: &Tables) -> (l: MoveList)
        requires
            board.wf(),
            tables.wf(),
            moves_of(board@).len() <= MAX_MOVES,
        ensures
            l@ == moves_of(board@),
            l.wf(),
            l.idx == 0,
    {
        match Self::try_generate(board, tables) {
            Some(l) => l,
            None => MoveList::default(),
        }
    }

    /// The moves that land on an enemy piece or on the enemy castle, in the
    /// order that they have among all moves; `None` if and only if they are
    /// more than a list holds.
    pub fn try_generate_captures(board: &Board, tables: &Tables) -> (r: Option<MoveList>)
        requires
            board.wf(),
            tables.wf(),
        ensures
            r.is_some() == (moves_of(board@).filter(|m: BitMove| board@.captures(m)).len()
                <= MAX_MOVES),
            r matches Some(l) ==> l@ == moves_of(board@).filter(|m: BitMove| board@.captures(m))
                && l.wf() && l.idx == 0,
    {
        let mut list = MoveList::default();
        let ghost pos = board@;
        let ghost a = MoveClass::SideCapture.moves(pos, true);
        proof {
            board.lemma_wf();
            lemma_captures_are_filtered(pos);
        }
        if !Self::generate_class(&mut list, board, tables, MoveClass::SideCapture, true) {
            return None;
        }
        assert(list@ =~= a);
        if !Self::generate_class(&mut list, board, tables, MoveClass::Shot, true) {
            return None;
        }
        if !Self::generate_class(&mut list, board, tables, MoveClass::Forward, true) {
            return None;
        }
        if !Self::generate_class(&mut list, board, tables, MoveClass::Jump, true) {
            return None;
        }
        if !Self::generate_class(&mut list, board, tables, MoveClass::Retreat, true) {
            return None;
        }
        proof {
            list.lemma_len();
            assert(list@ =~= moves_with(pos, true));
        }
        Some(list)
    }

    /// The capturing moves, for a position that has no more of them than a
    /// list holds.
    pub fn generate_captures(board: &Board, tables: &Tables) -> (l: MoveList)
        requires
            board.wf(),
            tables.wf(),
            moves_of(board@).filter(|m: BitMove| board@.captures(m)).len() <= MAX_MOVES,
        ensures
            l@ == moves_of(board@).filter(|m: BitMove| board@.captures(m)),
            l.wf(),
            l.idx == 0,
    {
        match Self::try_generate_captures(board, tables) {
            Some(l) => l,
            None => MoveList::default(),
        }
    }

    /// Appends the moves of one class that start on `sq`.
    fn append_from(
        out: &mut Vec<BitMove>,
        board: &Board,
        tables: &Tables,
        class: MoveClass,
        sq: Square,
    )
        requires
            board.wf(),
            tables.wf(),
            sq.wf(),
        ensures
            final(out)@ == old(out)@ + class.moves(board@, false).filter(
                |m: BitMove| m.from() == sq.idx(),
            ),
    {
        let ghost f = |k: int| class.at(board@, false, k);
        let ghost lo = first_number(class, sq.idx());
        let (per, shot): (usize, bool) = match class {
            MoveClass::Shot => (8, true),
            _ => (1, false),
        };
        let first: usize = sq.to_index() * per;
        let mut j: usize = 0;
        proof {
            board.lemma_wf();
            lemma_class_from(class, board@, sq.idx());
            assert(out@ =~= old(out)@ + collect(f, lo, lo));
        }
        while j < per
            invariant
                board.wf(),
                tables.wf(),
                sq.wf(),
                j <= per,
                per == (if class == MoveClass::Shot {
                    8int
                } else {
                    1int
                }),
                shot == (class == MoveClass::Shot),
                first == sq.idx() * per,
                lo == first_number(class, sq.idx()),
                lo == first * 64,
                f == (|k: int| class.at(board@, false, k)),
                out@ == old(out)@ + collect(f, lo, lo + j * 64),
            decreases per - j,
        {
            let slot: usize = first + j;
            let found = Self::targets(board, tables, class, slot, false);
            let mut list = MoveList::default();
            proof {
                assert(class.source(slot as int) == sq.idx());
                assert forall|t: int| 0 <= t < 64 implies #[trigger] f(slot * 64 + t)
                    == target_move(found@, sq.idx(), shot, t) by {
                    let k = slot * 64 + t;
                    assert(k / 64 == slot && k % 64 == t);
                }
                lemma_collect_split(f, lo, lo + j * 64, lo + j * 64 + 64);
            }
            let ok = Self::push_targets(&mut list, sq, found, shot, Ghost(f), Ghost(slot * 64));
            let ghost before = out@;
            let mut i: usize = 0;
            proof {
                list.lemma_len();
                assert(list@ =~= collect(f, slot * 64, slot * 64 + 64));
            }
            while i < list.len()
                invariant
                    list.wf(),
                    i <= list.len,
                    out@ == before + list@.subrange(0, i as int),
                decreases list.len - i,
            {
                out.push(list.get(i));
                i += 1;
                assert(out@ =~= before + list@.subrange(0, i as int));
            }
            proof {
                assert(list@.subrange(0, i as int) =~= list@);
                assert(out@ =~= old(out)@ + collect(f, lo, lo + (j + 1) * 64));
            }
            j += 1;
        }
    }

    /// The moves of the side to move that start on `sq`, in the order that
    /// they have among all moves.
    pub fn generate_for(board: &Board, tables: &Tables, sq: Square) -> (v: Vec<BitMove>)
        requires
            board.wf(),
            tables.wf(),
            sq.wf(),
        ensures
            v@ == moves_of(board@).filter(|m: BitMove| m.from() == sq.idx()),
    {
        let mut out: Vec<BitMove> = Vec::new();
        proof {
            board.lemma_wf();
            lemma_moves_from(board@, sq.idx());
        }
        Self::append_from(&mut out, board, tables, MoveClass::SideCapture, sq);
        Self::append_from(&mut out, board, tables, MoveClass::Shot, sq);
        Self::append_from(&mut out, board, tables, MoveClass::Forward, sq);
        Self::append_from(&mut out, board, tables, MoveClass::Jump, sq);
        Self::append_from(&mut out, board, tables, MoveClass::Retreat, sq);
        out
    }
}

} // verus!
