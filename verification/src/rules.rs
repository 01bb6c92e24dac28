use vstd::prelude::*;
use crate::cannon_move::BitMove;
use crate::geometry::{is_blocker, is_body, offset, Relation};
use crate::position::Position;
use crate::square::{coords_on_board, file_of, rank_of, Square};
use crate::geometry::{dir_file, dir_rank};

verus! {

/// The five kinds of move, in the order in which they are generated:
/// captures come before quiet moves.
#[derive(Copy, Clone, Debug, PartialEq, Eq, Structural)]
pub enum MoveClass {
    SideCapture,
    Shot,
    Forward,
    Jump,
    Retreat,
}

/// A piece or the castle of the side that is not to move stands on `t`.
pub open spec fn capturable(pos: Position, t: int) -> bool {
    pos.enemy().contains(t) || pos.enemy_castle().contains(t)
}

/// The squares strictly between `s` and `t` on their common line, if any.
pub open spec fn between_set(s: int, t: int) -> Set<int> {
    Relation::Between(Square(t as u8)).squares(s)
}

/// A side step: a piece takes an enemy piece or the enemy castle on the
/// square to its left or right.
pub open spec fn side_rule(pos: Position, s: int, t: int) -> bool {
    pos.own().contains(s) && Relation::Side.squares(s).contains(t) && capturable(pos, t)
        && !pos.own().contains(t)
}

/// An advance: a piece goes to one of the squares ahead of it that holds no
/// piece of its own side.
pub open spec fn forward_rule(pos: Position, s: int, t: int) -> bool {
    pos.own().contains(s) && Relation::Front(pos.side).squares(s).contains(t)
        && !pos.own().contains(t)
}

/// A jump: a piece leaps three squares along a line to a square without
/// piece or castle, over two pieces of its own side.
pub open spec fn jump_rule(pos: Position, s: int, t: int) -> bool {
    pos.own().contains(s) && Relation::Ring(3).squares(s).contains(t) && !pos.occupied().contains(
        t,
    ) && !pos.white_castle.contains(t) && !pos.black_castle.contains(t) && between_set(s, t)
        != Set::<int>::empty() && between_set(s, t).subset_of(pos.own())
}

/// An enemy piece stands ahead of `s` or beside it.
pub open spec fn threatened(pos: Position, s: int) -> bool {
    Relation::Front(pos.side).squares(s).union(Relation::Side.squares(s)).intersect(pos.enemy())
        != Set::<int>::empty()
}

/// A retreat: a threatened piece goes two ranks back, straight or
/// diagonally, to a square without a piece, over a square without a piece.
pub open spec fn retreat_rule(pos: Position, s: int, t: int) -> bool {
    pos.own().contains(s) && threatened(pos, s) && Relation::Retreat(pos.side).squares(
        s,
    ).contains(t) && !pos.occupied().contains(t) && between_set(s, t).difference(pos.occupied())
        != Set::<int>::empty()
}

/// The piece on `s` is the mouth of a cannon that can fire in direction `d`:
/// the next square in that direction holds no piece, and the two squares
/// behind `s` hold pieces of its own side.
pub open spec fn shot_ready(pos: Position, s: int, d: int) -> bool {
    pos.own().contains(s) && Relation::Blocker(d as u8).squares(s).difference(pos.occupied())
        != Set::<int>::empty() && Relation::Body(d as u8).squares(s) != Set::<int>::empty()
        && Relation::Body(d as u8).squares(s).subset_of(pos.own())
}

/// A shot: a cannon that can fire takes the enemy piece or castle two or
/// three squares ahead of its mouth, and no piece moves.
pub open spec fn shot_rule(pos: Position, s: int, d: int, t: int) -> bool {
    shot_ready(pos, s, d) && Relation::Target(d as u8).squares(s).contains(t) && capturable(
        pos,
        t,
    )
}

impl MoveClass {
    /// Number of slots the class has: one for each square, and for shots one
    /// for each square and direction.
    pub open spec fn slots(self) -> int {
        if self == MoveClass::Shot {
            512
        } else {
            64
        }
    }

    /// The square from which the moves of a slot start.
    pub open spec fn source(self, slot: int) -> int {
        if self == MoveClass::Shot {
            slot / 8
        } else {
            slot
        }
    }

    /// Whether the rule of the class lets the piece of `slot` move to, or
    /// shoot at, `t`.
    pub open spec fn rule(self, pos: Position, slot: int, t: int) -> bool {
        match self {
            MoveClass::SideCapture => side_rule(pos, slot, t),
            MoveClass::Shot => shot_rule(pos, slot / 8, slot % 8, t),
            MoveClass::Forward => forward_rule(pos, slot, t),
            MoveClass::Jump => jump_rule(pos, slot, t),
            MoveClass::Retreat => retreat_rule(pos, slot, t),
        }
    }

    /// The move with number `k` of the class, if the rule allows it: the
    /// number is 64 times the slot plus the target square. With
    /// `captures_only`, only moves that land on an enemy piece or castle
    /// count.
    pub open spec fn at(self, pos: Position, captures_only: bool, k: int) -> Option<BitMove> {
        if 0 <= k < self.slots() * 64 && self.rule(pos, k / 64, k % 64) && (captures_only
            ==> capturable(pos, k % 64)) {
            Some(BitMove::of(self.source(k / 64), k % 64, self == MoveClass::Shot))
        } else {
            None
        }
    }

    /// The moves of the class in `pos`, by slot and then by target square.
    pub open spec fn moves(self, pos: Position, captures_only: bool) -> Seq<BitMove> {
        collect(|k: int| self.at(pos, captures_only, k), 0, self.slots() * 64)
    }
}

/// The moves that `f` gives for the numbers from `lo` up to `hi`, in order.
pub open spec fn collect(f: spec_fn(int) -> Option<BitMove>, lo: int, hi: int) -> Seq<BitMove>
    decreases hi - lo,
{
    if hi <= lo {
        Seq::empty()
    } else {
        match f(hi - 1) {
            Some(m) => collect(f, lo, hi - 1).push(m),
            None => collect(f, lo, hi - 1),
        }
    }
}

/// The moves of all classes: side captures, shots, advances, jumps, retreats.
pub open spec fn moves_with(pos: Position, captures_only: bool) -> Seq<BitMove> {
    MoveClass::SideCapture.moves(pos, captures_only) + MoveClass::Shot.moves(pos, captures_only)
        + MoveClass::Forward.moves(pos, captures_only) + MoveClass::Jump.moves(
        pos,
        captures_only,
    ) + MoveClass::Retreat.moves(pos, captures_only)
}

/// All moves that the rules allow the side to move in `pos`, in the order
/// of generation.
pub open spec fn moves_of(pos: Position) -> Seq<BitMove> {
    moves_with(pos, false)
}

/// A range can be collected in two parts.
pub proof fn lemma_collect_split(f: spec_fn(int) -> Option<BitMove>, lo: int, mid: int, hi: int)
    requires
        lo <= mid <= hi,
    ensures
        collect(f, lo, hi) == collect(f, lo, mid) + collect(f, mid, hi),
        collect(f, lo, hi).len() >= collect(f, lo, mid).len(),
    decreases hi - mid,
{
    if hi > mid {
        lemma_collect_split(f, lo, mid, hi - 1);
        assert(collect(f, lo, hi) =~= collect(f, lo, mid) + collect(f, mid, hi));
    } else {
        assert(collect(f, lo, hi) =~= collect(f, lo, mid) + collect(f, mid, hi));
    }
}

/// A range without moves collects nothing.
pub proof fn lemma_collect_none(f: spec_fn(int) -> Option<BitMove>, lo: int, hi: int)
    requires
        forall|k: int| lo <= k < hi ==> (#[trigger] f(k)).is_none(),
    ensures
        collect(f, lo, hi) == Seq::<BitMove>::empty(),
    decreases hi - lo,
{
    if hi > lo {
        lemma_collect_none(f, lo, hi - 1);
    }
}

/// Two functions that agree on a range collect the same moves there.
pub proof fn lemma_collect_same(
    f: spec_fn(int) -> Option<BitMove>,
    g: spec_fn(int) -> Option<BitMove>,
    lo: int,
    hi: int,
)
    requires
        forall|k: int| lo <= k < hi ==> #[trigger] f(k) == g(k),
    ensures
        collect(f, lo, hi) == collect(g, lo, hi),
    decreases hi - lo,
{
    if hi > lo {
        lemma_collect_same(f, g, lo, hi - 1);
    }
}

/// Every collected move is the move of one of the numbers of the range.
pub proof fn lemma_collect_member(f: spec_fn(int) -> Option<BitMove>, lo: int, hi: int, i: int)
    requires
        0 <= i < collect(f, lo, hi).len(),
    ensures
        exists|k: int| lo <= k < hi && #[trigger] f(k) == Some(collect(f, lo, hi)[i]),
    decreases hi - lo,
{
    if hi > lo {
        let rest = collect(f, lo, hi - 1);
        if i < rest.len() {
            lemma_collect_member(f, lo, hi - 1, i);
            let k = choose|k: int| lo <= k < hi - 1 && #[trigger] f(k) == Some(rest[i]);
            assert(lo <= k < hi && f(k) == Some(collect(f, lo, hi)[i]));
        } else {
            assert(f(hi - 1) == Some(collect(f, lo, hi)[i]));
        }
    }
}

/// Keeping the collected moves that satisfy `pred` is collecting only those.
pub proof fn lemma_collect_filter(
    f: spec_fn(int) -> Option<BitMove>,
    g: spec_fn(int) -> Option<BitMove>,
    pred: spec_fn(BitMove) -> bool,
    lo: int,
    hi: int,
)
    requires
        forall|k: int|
            lo <= k < hi ==> #[trigger] g(k) == (match f(k) {
                Some(m) => if pred(m) {
                    Some(m)
                } else {
                    None
                },
                None => None,
            }),
    ensures
        collect(f, lo, hi).filter(pred) == collect(g, lo, hi),
    decreases hi - lo,
{
    reveal(Seq::filter);
    if hi > lo {
        lemma_collect_filter(f, g, pred, lo, hi - 1);
        let rest = collect(f, lo, hi - 1);
        match f(hi - 1) {
            Some(m) => {
                let all = rest.push(m);
                assert(collect(f, lo, hi) == all);
                assert(all.drop_last() =~= rest);
                assert(all.last() == m);
                assert(g(hi - 1) == if pred(m) {
                    Some(m)
                } else {
                    None::<BitMove>
                });
                assert(all.filter(pred) == if pred(m) {
                    all.drop_last().filter(pred).push(m)
                } else {
                    all.drop_last().filter(pred)
                });
                assert(collect(g, lo, hi) == match g(hi - 1) {
                    Some(x) => collect(g, lo, hi - 1).push(x),
                    None => collect(g, lo, hi - 1),
                });
            },
            None => {
                assert(g(hi - 1).is_none());
                assert(collect(f, lo, hi) == rest);
                assert(collect(g, lo, hi) == collect(g, lo, hi - 1));
            },
        }
    } else {
        assert(collect(f, lo, hi).filter(pred) =~= Seq::<BitMove>::empty());
    }
}

/// Every move of a class starts on a piece of the side to move, stays on
/// the board, and can be made.
pub proof fn lemma_class_move(class: MoveClass, pos: Position, captures_only: bool, k: int)
    requires
        pos.wf(),
        class.at(pos, captures_only, k).is_some(),
    ensures
        ({
            let m = class.at(pos, captures_only, k).unwrap();
            &&& m.from() == class.source(k / 64)
            &&& m.to() == k % 64
            &&& m.shot() == (class == MoveClass::Shot)
            &&& pos.own().contains(m.from())
            &&& pos.applicable(m)
            &&& captures_only ==> pos.captures(m)
        }),
{
    let s = class.source(k / 64);
    let t = k % 64;
    assert(pos.own().contains(s));
    assert(0 <= s < 64);
    BitMove::lemma_of(s, t, class == MoveClass::Shot);
    match class {
        MoveClass::Shot => {
            let d = (k / 64) % 8;
            assert(Relation::Target(d as u8).holds(s, t));
        },
        MoveClass::SideCapture => {
            assert(Relation::Side.holds(s, t));
        },
        MoveClass::Forward => {
            assert(Relation::Front(pos.side).holds(s, t));
        },
        MoveClass::Jump => {
            assert(Relation::Ring(3).holds(s, t));
        },
        MoveClass::Retreat => {
            assert(Relation::Retreat(pos.side).holds(s, t));
        },
    }
}

/// Every move of the list of all moves, or of the list of captures, can be
/// made, and the captures land on an enemy piece or castle.
pub proof fn lemma_moves_applicable(pos: Position, captures_only: bool, i: int)
    requires
        pos.wf(),
        0 <= i < moves_with(pos, captures_only).len(),
    ensures
        pos.applicable(moves_with(pos, captures_only)[i]),
        pos.own().contains(moves_with(pos, captures_only)[i].from()),
        captures_only ==> pos.captures(moves_with(pos, captures_only)[i]),
{
    let a = MoveClass::SideCapture.moves(pos, captures_only);
    let b = MoveClass::Shot.moves(pos, captures_only);
    let c = MoveClass::Forward.moves(pos, captures_only);
    let d = MoveClass::Jump.moves(pos, captures_only);
    let e = MoveClass::Retreat.moves(pos, captures_only);
    let all = moves_with(pos, captures_only);
    if i < a.len() {
        lemma_class_member(MoveClass::SideCapture, pos, captures_only, i);
        assert(all[i] == a[i]);
    } else if i < a.len() + b.len() {
        lemma_class_member(MoveClass::Shot, pos, captures_only, i - a.len());
        assert(all[i] == b[i - a.len()]);
    } else if i < a.len() + b.len() + c.len() {
        lemma_class_member(MoveClass::Forward, pos, captures_only, i - a.len() - b.len());
        assert(all[i] == c[i - a.len() - b.len()]);
    } else if i < a.len() + b.len() + c.len() + d.len() {
        lemma_class_member(MoveClass::Jump, pos, captures_only, i - a.len() - b.len() - c.len());
        assert(all[i] == d[i - a.len() - b.len() - c.len()]);
    } else {
        lemma_class_member(
            MoveClass::Retreat,
            pos,
            captures_only,
            i - a.len() - b.len() - c.len() - d.len(),
        );
        assert(all[i] == e[i - a.len() - b.len() - c.len() - d.len()]);
    }
}

proof fn lemma_class_member(class: MoveClass, pos: Position, captures_only: bool, i: int)
    requires
        pos.wf(),
        0 <= i < class.moves(pos, captures_only).len(),
    ensures
        pos.applicable(class.moves(pos, captures_only)[i]),
        pos.own().contains(class.moves(pos, captures_only)[i].from()),
        captures_only ==> pos.captures(class.moves(pos, captures_only)[i]),
{
    let f = |k: int| class.at(pos, captures_only, k);
    lemma_collect_member(f, 0, class.slots() * 64, i);
    let k = choose|k: int|
        0 <= k < class.slots() * 64 && #[trigger] f(k) == Some(collect(f, 0, class.slots() * 64)[i]);
    lemma_class_move(class, pos, captures_only, k);
}

/// The captures are the moves that land on an enemy piece or castle, in the
/// order that they have among all moves.
pub proof fn lemma_captures_are_filtered(pos: Position)
    requires
        pos.wf(),
    ensures
        moves_with(pos, true) == moves_of(pos).filter(|m: BitMove| pos.captures(m)),
{
    let pred = |m: BitMove| pos.captures(m);
    let a = MoveClass::SideCapture.moves(pos, false);
    let b = MoveClass::Shot.moves(pos, false);
    let c = MoveClass::Forward.moves(pos, false);
    let d = MoveClass::Jump.moves(pos, false);
    let e = MoveClass::Retreat.moves(pos, false);
    lemma_class_filtered(MoveClass::SideCapture, pos);
    lemma_class_filtered(MoveClass::Shot, pos);
    lemma_class_filtered(MoveClass::Forward, pos);
    lemma_class_filtered(MoveClass::Jump, pos);
    lemma_class_filtered(MoveClass::Retreat, pos);
    Seq::filter_distributes_over_add(a, b, pred);
    Seq::filter_distributes_over_add(a + b, c, pred);
    Seq::filter_distributes_over_add(a + b + c, d, pred);
    Seq::filter_distributes_over_add(a + b + c + d, e, pred);
}

proof fn lemma_class_filtered(class: MoveClass, pos: Position)
    requires
        pos.wf(),
    ensures
        class.moves(pos, true) == class.moves(pos, false).filter(|m: BitMove| pos.captures(m)),
{
    let pred = |m: BitMove| pos.captures(m);
    let f = |k: int| class.at(pos, false, k);
    let g = |k: int| class.at(pos, true, k);
    assert forall|k: int| 0 <= k < class.slots() * 64 implies #[trigger] g(k) == (match f(k) {
        Some(m) => if pred(m) {
            Some(m)
        } else {
            None
        },
        None => None,
    }) by {
        if f(k).is_some() {
            lemma_class_move(class, pos, false, k);
        }
    }
    lemma_collect_filter(f, g, pred, 0, class.slots() * 64);
}

/// The first number of the slots of the piece on `s` in a class.
pub open spec fn first_number(class: MoveClass, s: int) -> int {
    if class == MoveClass::Shot {
        s * 512
    } else {
        s * 64
    }
}

/// The number after the last of the slots of the piece on `s` in a class.
pub open spec fn end_number(class: MoveClass, s: int) -> int {
    if class == MoveClass::Shot {
        s * 512 + 512
    } else {
        s * 64 + 64
    }
}

/// The moves of a class that start on `s` are those of the slots of `s`.
pub proof fn lemma_class_from(class: MoveClass, pos: Position, s: int)
    requires
        pos.wf(),
        0 <= s < 64,
    ensures
        class.moves(pos, false).filter(|m: BitMove| m.from() == s) == collect(
            |k: int| class.at(pos, false, k),
            first_number(class, s),
            end_number(class, s),
        ),
{
    let pred = |m: BitMove| m.from() == s;
    let f = |k: int| class.at(pos, false, k);
    let g = |k: int|
        match class.at(pos, false, k) {
            Some(m) => if m.from() == s {
                Some(m)
            } else {
                None
            },
            None => None,
        };
    let n = class.slots() * 64;
    let lo = first_number(class, s);
    let hi = end_number(class, s);
    lemma_collect_filter(f, g, pred, 0, n);
    assert forall|k: int| 0 <= k < lo implies (#[trigger] g(k)).is_none() by {
        if f(k).is_some() {
            lemma_class_move(class, pos, false, k);
        }
    }
    assert forall|k: int| hi <= k < n implies (#[trigger] g(k)).is_none() by {
        if f(k).is_some() {
            lemma_class_move(class, pos, false, k);
        }
    }
    assert forall|k: int| lo <= k < hi implies #[trigger] g(k) == f(k) by {
        if f(k).is_some() {
            lemma_class_move(class, pos, false, k);
        }
    }
    lemma_collect_none(g, 0, lo);
    lemma_collect_none(g, hi, n);
    lemma_collect_same(g, f, lo, hi);
    lemma_collect_split(g, 0, lo, n);
    lemma_collect_split(g, lo, hi, n);
    assert(collect(g, 0, n) =~= collect(f, lo, hi));
}

/// The moves that start on `s` are those of each class that start there, in
/// the order of the classes.
pub proof fn lemma_moves_from(pos: Position, s: int)
    requires
        pos.wf(),
        0 <= s < 64,
    ensures
        moves_of(pos).filter(|m: BitMove| m.from() == s) == MoveClass::SideCapture.moves(
            pos,
            false,
        ).filter(|m: BitMove| m.from() == s) + MoveClass::Shot.moves(pos, false).filter(
            |m: BitMove| m.from() == s,
        ) + MoveClass::Forward.moves(pos, false).filter(|m: BitMove| m.from() == s)
            + MoveClass::Jump.moves(pos, false).filter(|m: BitMove| m.from() == s)
            + MoveClass::Retreat.moves(pos, false).filter(|m: BitMove| m.from() == s),
{
    let pred = |m: BitMove| m.from() == s;
    let a = MoveClass::SideCapture.moves(pos, false);
    let b = MoveClass::Shot.moves(pos, false);
    let c = MoveClass::Forward.moves(pos, false);
    let d = MoveClass::Jump.moves(pos, false);
    let e = MoveClass::Retreat.moves(pos, false);
    Seq::filter_distributes_over_add(a, b, pred);
    Seq::filter_distributes_over_add(a + b, c, pred);
    Seq::filter_distributes_over_add(a + b + c, d, pred);
    Seq::filter_distributes_over_add(a + b + c + d, e, pred);
}

/// How often `m` occurs in `s`.
pub open spec fn occurrences(s: Seq<BitMove>, m: BitMove) -> nat
    decreases s.len(),
{
    if s.len() == 0 {
        0
    } else {
        occurrences(s.drop_last(), m) + if s.last() == m {
            1nat
        } else {
            0nat
        }
    }
}

/// A move occurs in a list of two parts as often as in the parts together.
pub proof fn lemma_occurrences_add(a: Seq<BitMove>, b: Seq<BitMove>, m: BitMove)
    ensures
        occurrences(a + b, m) == occurrences(a, m) + occurrences(b, m),
    decreases b.len(),
{
    if b.len() == 0 {
        assert(a + b =~= a);
    } else {
        lemma_occurrences_add(a, b.drop_last(), m);
        assert((a + b).drop_last() =~= a + b.drop_last());
    }
}

/// A move that only the number `k` gives is collected once from a range
/// that holds `k`, and not at all from any other range.
pub proof fn lemma_collect_occurrences(
    f: spec_fn(int) -> Option<BitMove>,
    lo: int,
    hi: int,
    m: BitMove,
    k: int,
)
    requires
        forall|j: int| lo <= j < hi && j != k ==> #[trigger] f(j) != Some(m),
        lo <= k < hi ==> f(k) == Some(m),
    ensures
        occurrences(collect(f, lo, hi), m) == if lo <= k < hi {
            1nat
        } else {
            0nat
        },
    decreases hi - lo,
{
    if hi > lo {
        lemma_collect_occurrences(f, lo, hi - 1, m, k);
        let rest = collect(f, lo, hi - 1);
        match f(hi - 1) {
            Some(x) => {
                assert(rest.push(x).drop_last() =~= rest);
            },
            None => {},
        }
    }
}

/// The piece on `s` is the mouth of a cannon that points in direction `d`
/// at the enemy piece on `t`, two steps ahead: two pieces of its own side
/// stand on the two squares behind it, and the square between `s` and `t`
/// holds no piece.
pub open spec fn cannon_aimed(pos: Position, s: int, d: int, t: int) -> bool {
    &&& 0 <= s < 64
    &&& 0 <= d < 8
    &&& pos.own().contains(s)
    &&& offset(s, d, 2, t)
    &&& pos.enemy().contains(t)
    &&& forall|b: int| is_blocker(s, d, b) ==> !pos.occupied().contains(b)
    &&& coords_on_board(rank_of(s) - 2 * dir_rank(d), file_of(s) - 2 * dir_file(d))
    &&& forall|b: int| is_body(s, d, b) ==> pos.own().contains(b)
}

/// The number under which the class of shots has the shot from `s` in
/// direction `d` at `t`.
pub open spec fn shot_number(s: int, d: int, t: int) -> int {
    (s * 8 + d) * 64 + t
}

proof fn lemma_aimed_shot_allowed(pos: Position, s: int, d: int, t: int)
    requires
        pos.wf(),
        cannon_aimed(pos, s, d, t),
    ensures
        MoveClass::Shot.at(pos, false, shot_number(s, d, t)) == Some(BitMove::of(s, t, true)),
{
    let blocker = (rank_of(s) + dir_rank(d)) * 8 + file_of(s) + dir_file(d);
    let tail = (rank_of(s) - 2 * dir_rank(d)) * 8 + file_of(s) - 2 * dir_file(d);
    assert(is_blocker(s, d, blocker));
    assert(Relation::Blocker(d as u8).squares(s).difference(pos.occupied()).contains(blocker));
    assert(is_body(s, d, tail));
    assert(Relation::Body(d as u8).squares(s).contains(tail));
    assert(Relation::Target(d as u8).squares(s).contains(t));
    assert(shot_rule(pos, s, d, t));
    let k = shot_number(s, d, t);
    assert(k / 64 == s * 8 + d && k % 64 == t);
    assert((s * 8 + d) / 8 == s && (s * 8 + d) % 8 == d);
}

proof fn lemma_aimed_shot_single(pos: Position, s: int, d: int, t: int, j: int)
    requires
        pos.wf(),
        cannon_aimed(pos, s, d, t),
        MoveClass::Shot.at(pos, false, j) == Some(BitMove::of(s, t, true)),
    ensures
        j == shot_number(s, d, t),
{
    BitMove::lemma_of(s, t, true);
    lemma_class_move(MoveClass::Shot, pos, false, j);
    let slot = j / 64;
    let e = slot % 8;
    assert(slot / 8 == s);
    assert(j % 64 == t);
    assert(Relation::Target(e as u8).holds(s, t));
    assert(e == d);
}

proof fn lemma_aimed_no_plain_move(pos: Position, s: int, d: int, t: int, class: MoveClass, j: int)
    requires
        pos.wf(),
        cannon_aimed(pos, s, d, t),
    ensures
        class.at(pos, false, j) != Some(BitMove::of(s, t, false)),
        class != MoveClass::Shot ==> class.at(pos, false, j) != Some(BitMove::of(s, t, true)),
{
    BitMove::lemma_of(s, t, true);
    BitMove::lemma_of(s, t, false);
    if class.at(pos, false, j).is_some() {
        lemma_class_move(class, pos, false, j);
        if class.at(pos, false, j) == Some(BitMove::of(s, t, false)) {
            assert(class != MoveClass::Shot);
            assert(j / 64 == s && j % 64 == t);
            match class {
                MoveClass::SideCapture => {
                    assert(Relation::Side.holds(s, t));
                },
                MoveClass::Forward => {
                    assert(Relation::Front(pos.side).holds(s, t));
                },
                MoveClass::Jump => {
                    assert(Relation::Ring(3).holds(s, t));
                },
                MoveClass::Retreat => {
                    assert(pos.occupied().contains(t));
                },
                MoveClass::Shot => {},
            }
        }
    }
}

/// A cannon that is aimed at an enemy piece two squares ahead has exactly
/// one shot at that square among the moves of the position, and its mouth
/// piece has no other move to that square.
pub proof fn lemma_shot_is_generated(pos: Position, s: int, d: int, t: int)
    requires
        pos.wf(),
        cannon_aimed(pos, s, d, t),
    ensures
        occurrences(moves_of(pos), BitMove::of(s, t, true)) == 1,
        occurrences(moves_of(pos), BitMove::of(s, t, false)) == 0,
{
    let shot = BitMove::of(s, t, true);
    let plain = BitMove::of(s, t, false);
    let k = shot_number(s, d, t);
    lemma_aimed_shot_allowed(pos, s, d, t);
    assert forall|j: int| j != k implies #[trigger] MoveClass::Shot.at(pos, false, j) != Some(
        shot,
    ) by {
        if MoveClass::Shot.at(pos, false, j) == Some(shot) {
            lemma_aimed_shot_single(pos, s, d, t, j);
        }
    }
    lemma_class_once(MoveClass::Shot, pos, shot, k);
    lemma_aimed_class_never(pos, s, d, t, MoveClass::Shot, plain);
    lemma_aimed_class_never(pos, s, d, t, MoveClass::SideCapture, shot);
    lemma_aimed_class_never(pos, s, d, t, MoveClass::Forward, shot);
    lemma_aimed_class_never(pos, s, d, t, MoveClass::Jump, shot);
    lemma_aimed_class_never(pos, s, d, t, MoveClass::Retreat, shot);
    lemma_aimed_class_never(pos, s, d, t, MoveClass::SideCapture, plain);
    lemma_aimed_class_never(pos, s, d, t, MoveClass::Forward, plain);
    lemma_aimed_class_never(pos, s, d, t, MoveClass::Jump, plain);
    lemma_aimed_class_never(pos, s, d, t, MoveClass::Retreat, plain);
    lemma_occurrences_of_moves(pos, shot);
    lemma_occurrences_of_moves(pos, plain);
}

proof fn lemma_aimed_class_never(
    pos: Position,
    s: int,
    d: int,
    t: int,
    class: MoveClass,
    m: BitMove,
)
    requires
        pos.wf(),
        cannon_aimed(pos, s, d, t),
        m == BitMove::of(s, t, false) || (m == BitMove::of(s, t, true) && class
            != MoveClass::Shot),
    ensures
        occurrences(class.moves(pos, false), m) == 0,
{
    assert forall|j: int| #[trigger] class.at(pos, false, j) != Some(m) by {
        lemma_aimed_no_plain_move(pos, s, d, t, class, j);
    }
    lemma_class_never(class, pos, m);
}

/// A move occurs among all moves as often as in the five classes together.
proof fn lemma_occurrences_of_moves(pos: Position, m: BitMove)
    ensures
        occurrences(moves_of(pos), m) == occurrences(MoveClass::SideCapture.moves(pos, false), m)
            + occurrences(MoveClass::Shot.moves(pos, false), m) + occurrences(
            MoveClass::Forward.moves(pos, false),
            m,
        ) + occurrences(MoveClass::Jump.moves(pos, false), m) + occurrences(
            MoveClass::Retreat.moves(pos, false),
            m,
        ),
{
    let a = MoveClass::SideCapture.moves(pos, false);
    let b = MoveClass::Shot.moves(pos, false);
    let c = MoveClass::Forward.moves(pos, false);
    let d = MoveClass::Jump.moves(pos, false);
    let e = MoveClass::Retreat.moves(pos, false);
    lemma_occurrences_add(a, b, m);
    lemma_occurrences_add(a + b, c, m);
    lemma_occurrences_add(a + b + c, d, m);
    lemma_occurrences_add(a + b + c + d, e, m);
}

/// A move that the rule of a class gives for the number `k`, and for no
/// other number, occurs once among the moves of the class.
proof fn lemma_class_once(class: MoveClass, pos: Position, m: BitMove, k: int)
    requires
        pos.wf(),
        class.at(pos, false, k) == Some(m),
        forall|j: int| j != k ==> #[trigger] class.at(pos, false, j) != Some(m),
    ensures
        occurrences(class.moves(pos, false), m) == 1,
{
    let f = |j: int| class.at(pos, false, j);
    assert forall|j: int| 0 <= j < class.slots() * 64 && j != k implies #[trigger] f(j) != Some(
        m,
    ) by {
        assert(class.at(pos, false, j) != Some(m));
    }
    lemma_collect_occurrences(f, 0, class.slots() * 64, m, k);
}

/// A move that the rule of a class gives for no number does not occur among
/// the moves of the class.
proof fn lemma_class_never(class: MoveClass, pos: Position, m: BitMove)
    requires
        pos.wf(),
        forall|j: int| #[trigger] class.at(pos, false, j) != Some(m),
    ensures
        occurrences(class.moves(pos, false), m) == 0,
{
    let f = |j: int| class.at(pos, false, j);
    assert forall|j: int| 0 <= j < class.slots() * 64 && j != -1 implies #[trigger] f(j) != Some(
        m,
    ) by {
        assert(class.at(pos, false, j) != Some(m));
    }
    lemma_collect_occurrences(f, 0, class.slots() * 64, m, -1);
}

/// Every move of the list is the move of a number of one of the classes.
proof fn lemma_move_has_class(pos: Position, i: int) -> (r: (MoveClass, int))
    requires
        0 <= i < moves_of(pos).len(),
    ensures
        r.0.at(pos, false, r.1) == Some(moves_of(pos)[i]),
{
    let a = MoveClass::SideCapture.moves(pos, false);
    let b = MoveClass::Shot.moves(pos, false);
    let c = MoveClass::Forward.moves(pos, false);
    let d = MoveClass::Jump.moves(pos, false);
    let all = moves_of(pos);
    let (class, j) = if i < a.len() {
        (MoveClass::SideCapture, i)
    } else if i < a.len() + b.len() {
        (MoveClass::Shot, i - a.len())
    } else if i < a.len() + b.len() + c.len() {
        (MoveClass::Forward, i - a.len() - b.len())
    } else if i < a.len() + b.len() + c.len() + d.len() {
        (MoveClass::Jump, i - a.len() - b.len() - c.len())
    } else {
        (MoveClass::Retreat, i - a.len() - b.len() - c.len() - d.len())
    };
    assert(all[i] == class.moves(pos, false)[j]);
    let f = |k: int| class.at(pos, false, k);
    lemma_collect_member(f, 0, class.slots() * 64, j);
    let k = choose|k: int|
        0 <= k < class.slots() * 64 && #[trigger] f(k) == Some(collect(f, 0, class.slots() * 64)[j]);
    (class, k)
}

/// No piece of the barrel of a cannon that is aimed at `t` has a move to `t`.
proof fn lemma_barrel_stays(pos: Position, s: int, d: int, t: int, x: int, class: MoveClass, k: int)
    requires
        pos.wf(),
        cannon_aimed(pos, s, d, t),
        is_body(s, d, x),
        class.at(pos, false, k).is_some(),
        class.source(k / 64) == x,
    ensures
        k % 64 != t,
{
    lemma_class_move(class, pos, false, k);
    if k % 64 == t {
        match class {
            MoveClass::SideCapture => {
                assert(Relation::Side.holds(x, t));
            },
            MoveClass::Forward => {
                assert(Relation::Front(pos.side).holds(x, t));
            },
            MoveClass::Jump => {
                assert(pos.occupied().contains(t));
            },
            MoveClass::Retreat => {
                assert(pos.occupied().contains(t));
            },
            MoveClass::Shot => {
                let e = (k / 64) % 8;
                assert((k / 64) / 8 == x);
                assert(Relation::Target(e as u8).holds(x, t));
                assert(e == d);
                assert(offset(x, d, 3, t));
                let open = Relation::Blocker(d as u8).squares(x).difference(pos.occupied());
                assert forall|y: int| !open.contains(y) by {
                    if Relation::Blocker(d as u8).squares(x).contains(y) {
                        assert(is_blocker(x, d, y));
                        assert(y == s);
                    }
                }
                assert(open =~= Set::<int>::empty());
            },
        }
    }
}

/// Where the pieces of a cannon that is aimed at an enemy piece two squares
/// ahead are the only pieces of their side, the one move of the position
/// that lands on that square is the cannon's shot.
pub proof fn lemma_lone_cannon_only_shoots(pos: Position, s: int, d: int, t: int)
    requires
        pos.wf(),
        cannon_aimed(pos, s, d, t),
        forall|x: int| pos.own().contains(x) ==> x == s || is_body(s, d, x),
    ensures
        occurrences(moves_of(pos), BitMove::of(s, t, true)) == 1,
        forall|i: int|
            0 <= i < moves_of(pos).len() && (#[trigger] moves_of(pos)[i]).to() == t
                ==> moves_of(pos)[i] == BitMove::of(s, t, true),
{
    lemma_shot_is_generated(pos, s, d, t);
    assert forall|i: int|
        0 <= i < moves_of(pos).len() && (#[trigger] moves_of(pos)[i]).to()
            == t implies moves_of(pos)[i] == BitMove::of(s, t, true) by {
        let m = moves_of(pos)[i];
        let (class, k) = lemma_move_has_class(pos, i);
        lemma_class_move(class, pos, false, k);
        let x = class.source(k / 64);
        if x == s {
            if class == MoveClass::Shot {
                lemma_aimed_shot_allowed(pos, s, d, t);
                let e = (k / 64) % 8;
                assert((k / 64) / 8 == s);
                assert(Relation::Target(e as u8).holds(s, t));
                assert(e == d);
                assert(k == shot_number(s, d, t));
            } else {
                BitMove::lemma_of(s, t, false);
                assert(m == BitMove::of(s, t, false));
                lemma_aimed_no_plain_move(pos, s, d, t, class, k);
            }
        } else {
            lemma_barrel_stays(pos, s, d, t, x, class, k);
        }
    }
}

/// The moves of a position depend on its pieces, its castles and its side
/// to move alone.
pub proof fn lemma_moves_of_same_board(a: Position, b: Position)
    requires
        a.white == b.white,
        a.black == b.black,
        a.white_castle == b.white_castle,
        a.black_castle == b.black_castle,
        a.side == b.side,
    ensures
        moves_of(a) == moves_of(b),
{
    lemma_class_of_same_board(MoveClass::SideCapture, a, b);
    lemma_class_of_same_board(MoveClass::Shot, a, b);
    lemma_class_of_same_board(MoveClass::Forward, a, b);
    lemma_class_of_same_board(MoveClass::Jump, a, b);
    lemma_class_of_same_board(MoveClass::Retreat, a, b);
}

proof fn lemma_class_of_same_board(class: MoveClass, a: Position, b: Position)
    requires
        a.white == b.white,
        a.black == b.black,
        a.white_castle == b.white_castle,
        a.black_castle == b.black_castle,
        a.side == b.side,
    ensures
        class.moves(a, false) == class.moves(b, false),
{
    let f = |k: int| class.at(a, false, k);
    let g = |k: int| class.at(b, false, k);
    assert forall|k: int| 0 <= k < class.slots() * 64 implies #[trigger] f(k) == g(k) by {
        let slot = k / 64;
        let t = k % 64;
        assert(class.rule(a, slot, t) == class.rule(b, slot, t));
    }
    lemma_collect_same(f, g, 0, class.slots() * 64);
}

} // verus!
