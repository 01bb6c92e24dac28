use vstd::prelude::*;
use crate::board::Board;
use crate::cannon_move::{BitMove, MoveWithScore};
use crate::eval::{eval, eval_of, lemma_eval_bound};
use crate::movegen::{MoveGen, MoveList, MAX_MOVES};
use crate::position::Position;
use crate::rules::{
    lemma_captures_are_filtered, lemma_moves_applicable, lemma_moves_of_same_board, moves_of,
};
use crate::tables::Tables;
use crate::transposition::{
    is_power_of_two, lemma_power_of_two_gap, TTEntry, TTable, Table, FLAG_EXACT, FLAG_LOWER,
    FLAG_UPPER, TT_SIZE,
};

verus! {

/// Depth of the capture search that follows the main search.
pub const QUIESCENCE_DEPTH: u16 = 14;

/// Half the width of the window around the score of the last iteration.
pub const WINDOW: i16 = 6;

/// What each ply that is still to be searched adds to that half width.
pub const WINDOW_DEPTH_FACTOR: i16 = 4;

/// Below every score.
pub const NEG_INF: i16 = -9999;

/// Above every score.
pub const INF: i16 = 9999;

/// The score of a won position; a lost one scores its negative.
pub const WIN: i16 = 5000;

/// The score of a lost position.
pub const LOSS: i16 = -5000;

/// By depth 1, 2 and 3: how far below alpha the static score has to stay for
/// the node to be left to the capture search.
pub const FUTILITY_CUTOFF: [i16; 3] = [8, 15, 25];

/// Number of slots of the table that `search` works with.
pub const SEARCH_SLOTS: usize = 16777216;

/// A score seen from the other side. The lowest value of the type has no
/// positive counterpart and turns into the highest.
pub open spec fn negated(x: i16) -> i16 {
    if x == i16::MIN {
        i16::MAX
    } else {
        (-x) as i16
    }
}

/// The ply after `ply`; the count stops at the highest value of its type.
pub open spec fn next_ply(ply: u16) -> u16 {
    if ply == u16::MAX {
        ply
    } else {
        (ply + 1) as u16
    }
}

/// The futility margin of a node with `depth` plies left, for 1 to 3 plies.
pub open spec fn margin(depth: u16) -> int {
    if depth == 1 {
        8
    } else if depth == 2 {
        15
    } else {
        25
    }
}

/// Whether the node is given up to the capture search: it is near the
/// leaves, the move that led to it took nothing, and its static score plus
/// the margin stays below alpha.
pub open spec fn futile(pos: Position, alpha: i16, depth: u16) -> bool {
    1 <= depth <= 3 && !pos.last_capture() && eval_of(pos) + margin(depth) < alpha
}

/// Whether a cached entry answers a node: it was searched deep enough, and
/// its score is exact, or a lower bound at or above beta, or an upper bound
/// at or below alpha. The capture search takes an entry of any depth.
pub open spec fn usable(e: TTEntry, alpha: i16, beta: i16, depth: u16, quiet: bool) -> bool {
    (quiet || e.depth >= depth) && (e.kind() == FLAG_EXACT || (e.kind() == FLAG_LOWER && e.score
        >= beta) || (e.kind() == FLAG_UPPER && e.score <= alpha))
}

/// The depth under which a node's result is stored: its depth, as far as
/// a byte holds it; a result of the capture search counts as depth 0.
pub open spec fn stored_depth(depth: u16, quiet: bool) -> u8 {
    if quiet {
        0
    } else if depth > 255 {
        255
    } else {
        depth as u8
    }
}

/// The moves that a node tries: all moves, or in the capture search those
/// that land on an enemy piece or castle.
pub open spec fn node_moves(pos: Position, quiet: bool) -> Seq<BitMove> {
    if quiet {
        moves_of(pos).filter(|m: BitMove| pos.captures(m))
    } else {
        moves_of(pos)
    }
}

/// Whether the node looks its position up in the table: every node but the
/// root of the main search does.
pub open spec fn probes(ply: u16, quiet: bool) -> bool {
    quiet || ply > 0
}

/// The table as a node finds it after its look-up.
pub open spec fn after_probe(pos: Position, tt: Table, ply: u16, quiet: bool) -> Table {
    if probes(ply, quiet) {
        tt.touched(pos.hash())
    } else {
        tt
    }
}

/// Whether the table answers the node at once.
pub open spec fn cached(
    pos: Position,
    tt: Table,
    alpha: i16,
    beta: i16,
    depth: u16,
    ply: u16,
    quiet: bool,
) -> bool {
    probes(ply, quiet) && tt.probe(pos.hash()).is_some() && usable(
        tt.probe(pos.hash()).unwrap(),
        alpha,
        beta,
        depth,
        quiet,
    )
}

/// The result of a node and the table after it, or `None` where a position
/// of its tree has more moves than a list holds.
///
/// A node of the main search (`quiet` false) answers from the table if it
/// can, unless it is the root. With no plies left it returns the static
/// score, or searches captures if the move that led to it took a piece. A
/// futile node is given to the capture search as well. Otherwise it tries
/// its moves; without a move the side to move has lost. A node of the
/// capture search does the same with capturing moves only, and returns the
/// static score where there is none or no ply is left.
pub open spec fn search_node(
    pos: Position,
    tt: Table,
    alpha: i16,
    beta: i16,
    depth: u16,
    ply: u16,
    quiet: bool,
) -> Option<(MoveWithScore, Table)>
    decreases
            (if quiet {
                0int
            } else {
                1int
            }),
            depth,
            1int,
            0int,
{
    let tt1 = after_probe(pos, tt, ply, quiet);
    let still = MoveWithScore { bit_move: BitMove { data: 0 }, score: eval_of(pos) as i16 };
    if cached(pos, tt, alpha, beta, depth, ply, quiet) {
        let e = tt.probe(pos.hash()).unwrap();
        Some((MoveWithScore { bit_move: e.mv, score: e.score }, tt1))
    } else if depth == 0 {
        if !quiet && pos.last_capture() {
            search_node(pos, tt1, alpha, beta, QUIESCENCE_DEPTH, ply, true)
        } else {
            Some((still, tt1))
        }
    } else if !quiet && futile(pos, alpha, depth) {
        search_node(pos, tt1, alpha, beta, QUIESCENCE_DEPTH, ply, true)
    } else {
        let moves = node_moves(pos, quiet);
        if moves.len() > MAX_MOVES {
            None
        } else if moves.len() == 0 {
            if quiet {
                Some((still, tt1))
            } else {
                Some((MoveWithScore { bit_move: BitMove { data: 0 }, score: LOSS }, tt1))
            }
        } else {
            search_moves(pos, tt1, moves, 0, alpha, alpha, beta, BitMove { data: 0 }, depth, ply, quiet)
        }
    }
}

/// The result of a node from its move number `i` on, where `alpha` is the
/// best score so far and `best` the move that gave it.
///
/// A move onto the enemy castle wins at once. Any other move is made, and
/// scores the negation of what the node after it returns for the negated
/// window. A score above alpha becomes the new alpha; one at or above beta
/// ends the node and is stored as a lower bound. When the moves are used up
/// the best score is stored: as exact if it is above the alpha that the
/// node began with, else as an upper bound.
pub open spec fn search_moves(
    pos: Position,
    tt: Table,
    moves: Seq<BitMove>,
    i: int,
    alpha0: i16,
    alpha: i16,
    beta: i16,
    best: BitMove,
    depth: u16,
    ply: u16,
    quiet: bool,
) -> Option<(MoveWithScore, Table)>
    decreases
            (if quiet {
                0int
            } else {
                1int
            }),
            depth,
            0int,
            moves.len() - i,
{
    let keep = stored_depth(depth, quiet);
    if i >= moves.len() || i < 0 || depth == 0 {
        let flag = if alpha > alpha0 {
            FLAG_EXACT
        } else {
            FLAG_UPPER
        };
        Some(
            (
                MoveWithScore { bit_move: best, score: alpha },
                tt.stored(pos.hash(), alpha, best, flag, keep),
            ),
        )
    } else if pos.wins(moves[i]) {
        Some((MoveWithScore { bit_move: moves[i], score: WIN }, tt))
    } else {
        match search_node(
            pos.apply(moves[i]),
            tt,
            negated(beta),
            negated(alpha),
            (depth - 1) as u16,
            next_ply(ply),
            quiet,
        ) {
            None => None,
            Some((reply, tt2)) => {
                let score = negated(reply.score);
                if score > alpha && score >= beta {
                    Some(
                        (
                            MoveWithScore { bit_move: moves[i], score },
                            tt2.stored(pos.hash(), score, moves[i], FLAG_LOWER, keep),
                        ),
                    )
                } else if score > alpha {
                    search_moves(
                        pos,
                        tt2,
                        moves,
                        i + 1,
                        alpha0,
                        score,
                        beta,
                        moves[i],
                        depth,
                        ply,
                        quiet,
                    )
                } else {
                    search_moves(pos, tt2, moves, i + 1, alpha0, alpha, beta, best, depth, ply, quiet)
                }
            },
        }
    }
}

/// The move and the score of a searched node, without the table.
pub open spec fn node_result(
    pos: Position,
    tt: Table,
    alpha: i16,
    beta: i16,
    depth: u16,
    ply: u16,
    quiet: bool,
) -> Option<MoveWithScore> {
    match search_node(pos, tt, alpha, beta, depth, ply, quiet) {
        Some((r, _)) => Some(r),
        None => None,
    }
}

fn negate(x: i16) -> (r: i16)
    ensures
        r == negated(x),
{
    if x == i16::MIN {
        i16::MAX
    } else {
        -x
    }
}

fn is_usable(e: &TTEntry, alpha: i16, beta: i16, depth: u16, quiet: bool) -> (r: bool)
    ensures
        r == usable(*e, alpha, beta, depth, quiet),
{
    (quiet || e.depth as u16 >= depth) && (e.is_exact() || (e.is_lower() && e.score >= beta) || (
    e.is_upper() && e.score <= alpha))
}

fn is_futile(board: &Board, tables: &Tables, alpha: i16, depth: u16) -> (r: bool)
    requires
        board.wf(),
        tables.wf(),
    ensures
        r == futile(board@, alpha, depth),
{
    if 1 <= depth && depth <= 3 && !board.last_capture() {
        let margin: i16 = FUTILITY_CUTOFF[(depth - 1) as usize];
        eval(board, tables) + margin < alpha
    } else {
        false
    }
}

fn depth_to_store(depth: u16, quiet: bool) -> (r: u8)
    ensures
        r == stored_depth(depth, quiet),
{
    if quiet {
        0
    } else if depth > 255 {
        255
    } else {
        depth as u8
    }
}

/// One node of the search, of the main search or of the capture search.
fn node(
    board: &mut Board,
    tables: &Tables,
    tt: &mut TTable,
    alpha: i16,
    beta: i16,
    depth: u16,
    ply: u16,
    quiet: bool,
) -> (r: Option<MoveWithScore>)
    requires
        old(board).wf(),
        tables.wf(),
        old(tt).wf(),
    ensures
        final(board).wf(),
        final(board)@ == old(board)@,
        final(tt).wf(),
        final(tt)@.slots.len() == old(tt)@.slots.len(),
        final(tt)@.age == old(tt)@.age,
        r == node_result(old(board)@, old(tt)@, alpha, beta, depth, ply, quiet),
        r.is_some() ==> final(tt)@ == search_node(
            old(board)@,
            old(tt)@,
            alpha,
            beta,
            depth,
            ply,
            quiet,
        ).unwrap().1,
    decreases
            (if quiet {
                0int
            } else {
                1int
            }),
            depth,
{
    let ghost pos = board@;
    let ghost tt0 = tt@;
    let ghost goal = search_node(pos, tt0, alpha, beta, depth, ply, quiet);
    proof {
        board.lemma_wf();
        tt.lemma_wf();
        tt0.lemma_keeps_shape(pos.hash(), 0, BitMove { data: 0 }, 0, 0);
    }
    if quiet || ply > 0 {
        match tt.get(board.hash()) {
            Some(e) => {
                if is_usable(&e, alpha, beta, depth, quiet) {
                    return Some(MoveWithScore::new_with_score(e.mv, e.score));
                }
            },
            None => {},
        }
    }
    assert(tt@ == after_probe(pos, tt0, ply, quiet));
    assert(!cached(pos, tt0, alpha, beta, depth, ply, quiet));
    if depth == 0 {
        if !quiet && board.last_capture() {
            return node(board, tables, tt, alpha, beta, QUIESCENCE_DEPTH, ply, true);
        }
        return Some(MoveWithScore::new_with_score(BitMove::null(), eval(board, tables)));
    }
    if !quiet && is_futile(board, tables, alpha, depth) {
        return node(board, tables, tt, alpha, beta, QUIESCENCE_DEPTH, ply, true);
    }
    let generated = if quiet {
        MoveGen::try_generate_captures(board, tables)
    } else {
        MoveGen::try_generate(board, tables)
    };
    let moves: MoveList = match generated {
        Some(l) => l,
        None => {
            return None;
        },
    };
    let ghost mvs = node_moves(pos, quiet);
    assert(moves@ == mvs);
    if moves.is_empty() {
        if quiet {
            return Some(MoveWithScore::new_with_score(BitMove::null(), eval(board, tables)));
        }
        return Some(MoveWithScore::new_with_score(BitMove::null(), LOSS));
    }
    let keep: u8 = depth_to_store(depth, quiet);
    let enemy_castle = board.enemy_castle();
    let mut best: BitMove = BitMove::null();
    let mut alpha_now: i16 = alpha;
    let mut i: usize = 0;
    proof {
        moves.lemma_len();
    }
    while i < moves.len()
        invariant
            pos == old(board)@,
            tt0 == old(tt)@,
            goal == search_node(pos, tt0, alpha, beta, depth, ply, quiet),
            board.wf(),
            board@ == pos,
            tables.wf(),
            tt.wf(),
            tt@.slots.len() == tt0.slots.len(),
            tt@.age == tt0.age,
            moves.wf(),
            moves@ == mvs,
            mvs == node_moves(pos, quiet),
            i <= moves.len,
            depth > 0,
            keep == stored_depth(depth, quiet),
            enemy_castle@ == pos.enemy_castle(),
            goal == search_moves(pos, tt@, mvs, i as int, alpha, alpha_now, beta, best, depth, ply, quiet),
        decreases moves.len - i,
    {
        let m = moves.get(i);
        if enemy_castle.contains(m.dst()) {
            return Some(MoveWithScore::new_with_score(m, WIN));
        }
        proof {
            board.lemma_wf();
            tt.lemma_wf();
            if quiet {
                lemma_captures_are_filtered(pos);
                lemma_moves_applicable(pos, true, i as int);
            } else {
                lemma_moves_applicable(pos, false, i as int);
            }
            pos.lemma_apply_undo(m);
        }
        board.apply_move(m);
        let reply = node(
            board,
            tables,
            tt,
            negate(beta),
            negate(alpha_now),
            depth - 1,
            if ply == u16::MAX {
                ply
            } else {
                ply + 1
            },
            quiet,
        );
        board.undo_move();
        match reply {
            None => {
                return None;
            },
            Some(child) => {
                let score: i16 = negate(child.score);
                if score > alpha_now {
                    if score >= beta {
                        proof {
                            tt.lemma_wf();
                            tt@.lemma_keeps_shape(pos.hash(), score, m, FLAG_LOWER, keep);
                        }
                        tt.insert(board, score, m, FLAG_LOWER, keep);
                        return Some(MoveWithScore::new_with_score(m, score));
                    }
                    alpha_now = score;
                    best = m;
                }
            },
        }
        i += 1;
    }
    let flag: u8 = if alpha_now > alpha {
        FLAG_EXACT
    } else {
        FLAG_UPPER
    };
    proof {
        tt.lemma_wf();
        tt@.lemma_keeps_shape(pos.hash(), alpha_now, best, flag, keep);
    }
    tt.insert(board, alpha_now, best, flag, keep);
    Some(MoveWithScore::new_with_score(best, alpha_now))
}

/// Searches the position of `board` to `depth` plies within the window from
/// `alpha` to `beta`, `ply` plies below the root, and returns the best move
/// with its score for the side to move. The board comes back as it was.
/// The result is `None` where a position of the tree has more moves than a
/// list holds.
pub fn alpha_beta_search(
    board: &mut Board,
    tables: &Tables,
    tt: &mut TTable,
    alpha: i16,
    beta: i16,
    depth: u16,
    ply: u16,
) -> (r: Option<MoveWithScore>)
    requires
        old(board).wf(),
        tables.wf(),
        old(tt).wf(),
    ensures
        final(board).wf(),
        final(board)@ == old(board)@,
        final(tt).wf(),
        final(tt)@.slots.len() == old(tt)@.slots.len(),
        final(tt)@.age == old(tt)@.age,
        r == node_result(old(board)@, old(tt)@, alpha, beta, depth, ply, false),
        r.is_some() ==> final(tt)@ == search_node(
            old(board)@,
            old(tt)@,
            alpha,
            beta,
            depth,
            ply,
            false,
        ).unwrap().1,
{
    node(board, tables, tt, alpha, beta, depth, ply, false)
}

/// Searches the capturing moves of the position of `board` to `depth`
/// plies within the window from `alpha` to `beta`. The board comes back as
/// it was. The result is `None` where a position of the tree has more
/// capturing moves than a list holds.
pub fn quiescence(
    board: &mut Board,
    tables: &Tables,
    tt: &mut TTable,
    alpha: i16,
    beta: i16,
    depth: u16,
) -> (r: Option<MoveWithScore>)
    requires
        old(board).wf(),
        tables.wf(),
        old(tt).wf(),
    ensures
        final(board).wf(),
        final(board)@ == old(board)@,
        final(tt).wf(),
        final(tt)@.slots.len() == old(tt)@.slots.len(),
        final(tt)@.age == old(tt)@.age,
        r == node_result(old(board)@, old(tt)@, alpha, beta, depth, 0, true),
        r.is_some() ==> final(tt)@ == search_node(
            old(board)@,
            old(tt)@,
            alpha,
            beta,
            depth,
            0,
            true,
        ).unwrap().1,
{
    node(board, tables, tt, alpha, beta, depth, 0, true)
}

/// A bound of the window around `score` for the iteration of `depth` plies
/// of a search to `max_depth` plies: the score moved by `WINDOW` and by
/// `WINDOW_DEPTH_FACTOR` for each ply still to come, kept within `NEG_INF`
/// and `INF`.
pub open spec fn window_bound(score: i16, max_depth: u16, depth: u16, upper: bool) -> i16 {
    let w = WINDOW + (max_depth - depth) * WINDOW_DEPTH_FACTOR;
    let x = if upper {
        score + w
    } else {
        score - w
    };
    if x < NEG_INF {
        NEG_INF
    } else if x > INF {
        INF
    } else {
        x as i16
    }
}

/// The result of one iteration: the root is searched in an empty table
/// within the window, and once more with the full window if the score came
/// out at or outside a bound of the window.
pub open spec fn pass_result(
    pos: Position,
    slots: nat,
    age: u8,
    alpha: i16,
    beta: i16,
    depth: u16,
) -> Option<MoveWithScore> {
    match node_result(pos, Table::fresh(slots, age), alpha, beta, depth, 0, false) {
        None => None,
        Some(first) => if first.score <= alpha || first.score >= beta {
            node_result(pos, Table::fresh(slots, age), NEG_INF, INF, depth, 0, false)
        } else {
            Some(first)
        },
    }
}

/// The result of the iterations from `depth` plies on, two plies more each
/// time, up to `max_depth`. An iteration that finds a move makes it the best
/// move and centers the window of the next iteration on its score.
pub open spec fn deepen(
    pos: Position,
    slots: nat,
    age: u8,
    depth: u16,
    max_depth: u16,
    alpha: i16,
    beta: i16,
    best: MoveWithScore,
) -> Option<MoveWithScore>
    decreases max_depth - depth,
{
    if depth > max_depth {
        Some(best)
    } else {
        match pass_result(pos, slots, age, alpha, beta, depth) {
            None => None,
            Some(r) => {
                let found = r.bit_move.data != 0;
                let a = if found {
                    window_bound(r.score, max_depth, depth, false)
                } else {
                    alpha
                };
                let b = if found {
                    window_bound(r.score, max_depth, depth, true)
                } else {
                    beta
                };
                let chosen = if found {
                    r
                } else {
                    best
                };
                if max_depth - depth < 2 {
                    Some(chosen)
                } else {
                    deepen(pos, slots, age, (depth + 2) as u16, max_depth, a, b, chosen)
                }
            },
        }
    }
}

/// The move that a search of `pos` to `max_depth` plies chooses, with its
/// score, for a table of `slots` slots and age `age`: the result of
/// iterative deepening from one ply on. Without an iteration, or where no
/// iteration finds a move, it is the null move with the score `NEG_INF`.
pub open spec fn best_move(pos: Position, slots: nat, age: u8, max_depth: u16) -> Option<
    MoveWithScore,
> {
    deepen(
        pos,
        slots,
        age,
        1,
        max_depth,
        NEG_INF,
        INF,
        MoveWithScore { bit_move: BitMove { data: 0 }, score: NEG_INF },
    )
}

fn bound_of_window(score: i16, max_depth: u16, depth: u16, upper: bool) -> (r: i16)
    requires
        depth <= max_depth,
    ensures
        r == window_bound(score, max_depth, depth, upper),
{
    let w: i32 = WINDOW as i32 + (max_depth - depth) as i32 * WINDOW_DEPTH_FACTOR as i32;
    let x: i32 = if upper {
        score as i32 + w
    } else {
        score as i32 - w
    };
    if x < NEG_INF as i32 {
        NEG_INF
    } else if x > INF as i32 {
        INF
    } else {
        x as i16
    }
}

/// Empties the table and searches the root once.
fn pass(
    board: &Board,
    tables: &Tables,
    tt: &mut TTable,
    alpha: i16,
    beta: i16,
    depth: u16,
) -> (r: Option<MoveWithScore>)
    requires
        board.wf(),
        tables.wf(),
        old(tt).wf(),
    ensures
        final(tt).wf(),
        final(tt)@.slots.len() == old(tt)@.slots.len(),
        final(tt)@.age == old(tt)@.age,
        r == node_result(
            board@,
            Table::fresh(old(tt)@.slots.len(), old(tt)@.age),
            alpha,
            beta,
            depth,
            0,
            false,
        ),
{
    let slots: usize = tt.capacity();
    proof {
        tt.lemma_wf();
    }
    tt.allocate(slots);
    proof {
        tt.lemma_wf();
        if slots < tt@.slots.len() {
            lemma_power_of_two_gap(slots as int, tt@.slots.len() as int);
        }
    }
    let mut scratch = board.shallow_clone();
    node(&mut scratch, tables, tt, alpha, beta, depth, 0, false)
}

/// Searches the position of `board` by iterative deepening to `max_depth`
/// plies, from one ply on and two plies more each time, with `tt` as the
/// cache, which is emptied before every search of the root. Returns the
/// chosen move with its score: the null move where the side to move has no
/// move, a move onto the enemy castle where that wins at once. The result
/// is `None` where a position of the tree has more moves than a list holds.
///
/// The result is a function of the position, the depth and the size and age
/// of the table: the same search gives the same move and score again.
pub fn search_with(board: &mut Board, tables: &Tables, tt: &mut TTable, max_depth: u16) -> (r:
    Option<MoveWithScore>)
    requires
        old(board).wf(),
        tables.wf(),
        old(tt).wf(),
    ensures
        final(board).wf(),
        final(board)@ == old(board)@,
        final(tt).wf(),
        r == best_move(old(board)@, old(tt)@.slots.len(), old(tt)@.age, max_depth),
{
    let ghost pos = board@;
    let ghost slots = tt@.slots.len();
    let ghost age = tt@.age;
    let mut depth: u16 = 1;
    let mut alpha: i16 = NEG_INF;
    let mut beta: i16 = INF;
    let mut best = MoveWithScore::new_with_score(BitMove::null(), NEG_INF);
    while depth <= max_depth
        invariant
            board.wf(),
            board@ == pos,
            pos == old(board)@,
            tables.wf(),
            tt.wf(),
            tt@.slots.len() == slots,
            tt@.age == age,
            slots == old(tt)@.slots.len(),
            age == old(tt)@.age,
            best_move(pos, slots, age, max_depth) == deepen(
                pos,
                slots,
                age,
                depth,
                max_depth,
                alpha,
                beta,
                best,
            ),
        decreases max_depth - depth,
    {
        let first = match pass(board, tables, tt, alpha, beta, depth) {
            Some(r) => r,
            None => {
                return None;
            },
        };
        let found = if first.score <= alpha || first.score >= beta {
            match pass(board, tables, tt, NEG_INF, INF, depth) {
                Some(r) => r,
                None => {
                    return None;
                },
            }
        } else {
            first
        };
        if found.bit_move.data != 0 {
            alpha = bound_of_window(found.score, max_depth, depth, false);
            beta = bound_of_window(found.score, max_depth, depth, true);
            best = found;
        }
        if max_depth - depth < 2 {
            return Some(best);
        }
        depth += 2;
    }
    Some(best)
}

/// Searches the position of `board` to `max_depth` plies with a table of
/// its own, and returns the chosen move with its score.
///
/// The result is a function of the position and the depth alone: the same
/// search gives the same move and score again.
pub fn search(board: &mut Board, tables: &Tables, max_depth: u16) -> (r: Option<MoveWithScore>)
    requires
        old(board).wf(),
        tables.wf(),
    ensures
        final(board).wf(),
        final(board)@ == old(board)@,
        r == best_move(old(board)@, SEARCH_SLOTS as nat, 0, max_depth),
{
    let mut tt = TTable::default();
    tt.allocate(TT_SIZE);
    proof {
        tt.lemma_wf();
        assert(is_power_of_two(SEARCH_SLOTS as int)) by {
            reveal_with_fuel(is_power_of_two, 26);
        }
        let n = tt@.slots.len() as int;
        if n < SEARCH_SLOTS {
            lemma_power_of_two_gap(n, SEARCH_SLOTS as int);
        }
        if n > SEARCH_SLOTS {
            lemma_power_of_two_gap(SEARCH_SLOTS as int, n);
        }
    }
    search_with(board, tables, &mut tt, max_depth)
}

/// A position without a move is lost: unless the table answers the node or
/// the node is given up as futile, a search of one ply or more returns the
/// null move with the score of a loss, whatever the window.
pub proof fn lemma_no_moves_is_loss(
    pos: Position,
    tt: Table,
    alpha: i16,
    beta: i16,
    depth: u16,
    ply: u16,
)
    requires
        moves_of(pos).len() == 0,
        depth >= 1,
        !cached(pos, tt, alpha, beta, depth, ply, false),
        !futile(pos, alpha, depth),
    ensures
        node_result(pos, tt, alpha, beta, depth, ply, false) == Some(
            MoveWithScore { bit_move: BitMove { data: 0 }, score: LOSS },
        ),
{
}

/// A node that comes to a move onto the enemy castle returns that move with
/// the score of a win and tries no further move.
pub proof fn lemma_win_is_taken(
    pos: Position,
    tt: Table,
    moves: Seq<BitMove>,
    i: int,
    alpha0: i16,
    alpha: i16,
    beta: i16,
    best: BitMove,
    depth: u16,
    ply: u16,
    quiet: bool,
)
    requires
        0 <= i < moves.len(),
        depth >= 1,
        pos.wins(moves[i]),
    ensures
        search_moves(pos, tt, moves, i, alpha0, alpha, beta, best, depth, ply, quiet) == Some(
            (MoveWithScore { bit_move: moves[i], score: WIN }, tt),
        ),
{
}

/// Where the first move of a position lands on the enemy castle, a search
/// of one ply or more returns that move with the score of a win, unless the
/// table answers the node or the node is given up as futile.
pub proof fn lemma_first_move_wins(
    pos: Position,
    tt: Table,
    alpha: i16,
    beta: i16,
    depth: u16,
    ply: u16,
)
    requires
        depth >= 1,
        0 < moves_of(pos).len() <= MAX_MOVES,
        pos.wins(moves_of(pos)[0]),
        !cached(pos, tt, alpha, beta, depth, ply, false),
        !futile(pos, alpha, depth),
    ensures
        node_result(pos, tt, alpha, beta, depth, ply, false) == Some(
            MoveWithScore { bit_move: moves_of(pos)[0], score: WIN },
        ),
{
    lemma_win_is_taken(
        pos,
        after_probe(pos, tt, ply, false),
        moves_of(pos),
        0,
        alpha,
        alpha,
        beta,
        BitMove { data: 0 },
        depth,
        ply,
        false,
    );
}

/// The first of the elements that satisfy `pred` is the first element, if
/// that satisfies `pred`.
proof fn lemma_filter_first(s: Seq<BitMove>, pred: spec_fn(BitMove) -> bool)
    requires
        s.len() > 0,
        pred(s[0]),
    ensures
        s.filter(pred).len() > 0,
        s.filter(pred).len() <= s.len(),
        s.filter(pred)[0] == s[0],
    decreases s.len(),
{
    reveal(Seq::filter);
    if s.len() > 1 {
        lemma_filter_first(s.drop_last(), pred);
    } else {
        assert(s.drop_last().filter(pred) =~= Seq::<BitMove>::empty());
    }
}

/// Where the first move of a position lands on the enemy castle, the root
/// of a search of one ply or more in an empty table returns that move with
/// the score of a win, whatever the window.
proof fn lemma_root_takes_win(
    pos: Position,
    slots: nat,
    age: u8,
    alpha: i16,
    beta: i16,
    depth: u16,
)
    requires
        pos.wf(),
        Table::fresh(slots, age).wf(),
        depth >= 1,
        0 < moves_of(pos).len() <= MAX_MOVES,
        pos.wins(moves_of(pos)[0]),
    ensures
        node_result(pos, Table::fresh(slots, age), alpha, beta, depth, 0, false) == Some(
            MoveWithScore { bit_move: moves_of(pos)[0], score: WIN },
        ),
{
    let tt = Table::fresh(slots, age);
    let m = moves_of(pos)[0];
    if futile(pos, alpha, depth) {
        let pred = |m: BitMove| pos.captures(m);
        let captures = node_moves(pos, true);
        Table::lemma_fresh_misses(slots, age, pos.hash());
        lemma_filter_first(moves_of(pos), pred);
        assert(captures[0] == m);
        lemma_win_is_taken(
            pos,
            tt,
            captures,
            0,
            alpha,
            alpha,
            beta,
            BitMove { data: 0 },
            QUIESCENCE_DEPTH,
            0,
            true,
        );
        assert(search_node(pos, tt, alpha, beta, QUIESCENCE_DEPTH, 0, true) == Some(
            (MoveWithScore { bit_move: m, score: WIN }, tt),
        ));
    } else {
        lemma_first_move_wins(pos, tt, alpha, beta, depth, 0);
    }
}

proof fn lemma_deepen_takes_win(
    pos: Position,
    slots: nat,
    age: u8,
    depth: u16,
    max_depth: u16,
    alpha: i16,
    beta: i16,
    best: MoveWithScore,
)
    requires
        pos.wf(),
        Table::fresh(slots, age).wf(),
        1 <= depth <= max_depth,
        0 < moves_of(pos).len() <= MAX_MOVES,
        pos.wins(moves_of(pos)[0]),
    ensures
        deepen(pos, slots, age, depth, max_depth, alpha, beta, best) == Some(
            MoveWithScore { bit_move: moves_of(pos)[0], score: WIN },
        ),
    decreases max_depth - depth,
{
    let m = moves_of(pos)[0];
    let r = MoveWithScore { bit_move: m, score: WIN };
    lemma_root_takes_win(pos, slots, age, alpha, beta, depth);
    lemma_root_takes_win(pos, slots, age, NEG_INF, INF, depth);
    lemma_moves_applicable(pos, false, 0);
    assert(m.data != 0);
    assert(pass_result(pos, slots, age, alpha, beta, depth) == Some(r));
    if max_depth - depth >= 2 {
        lemma_deepen_takes_win(
            pos,
            slots,
            age,
            (depth + 2) as u16,
            max_depth,
            window_bound(WIN, max_depth, depth, false),
            window_bound(WIN, max_depth, depth, true),
            r,
        );
    }
}

/// Where the first move of a position lands on the enemy castle, a search
/// to one ply or more returns that move with the score of a win.
pub proof fn lemma_search_takes_win(pos: Position, slots: nat, age: u8, max_depth: u16)
    requires
        pos.wf(),
        Table::fresh(slots, age).wf(),
        max_depth >= 1,
        0 < moves_of(pos).len() <= MAX_MOVES,
        pos.wins(moves_of(pos)[0]),
    ensures
        best_move(pos, slots, age, max_depth) == Some(
            MoveWithScore { bit_move: moves_of(pos)[0], score: WIN },
        ),
{
    lemma_deepen_takes_win(
        pos,
        slots,
        age,
        1,
        max_depth,
        NEG_INF,
        INF,
        MoveWithScore { bit_move: BitMove { data: 0 }, score: NEG_INF },
    );
}

/// A score between that of a loss and that of a win.
pub open spec fn sane_score(x: i16) -> bool {
    LOSS <= x <= WIN
}

/// A window that starts at or below the score of a win and ends at or above
/// the score of a loss.
pub open spec fn sane_window(alpha: i16, beta: i16) -> bool {
    alpha <= WIN && beta >= LOSS
}

/// Every result that the table holds has a score between loss and win.
pub open spec fn sane_table(tt: Table) -> bool {
    forall|i: int|
        0 <= i < tt.slots.len() && (#[trigger] tt.slots[i]).occupied() ==> sane_score(
            tt.slots[i].score,
        )
}

proof fn lemma_table_stays_sane(tt: Table, hash: u64, score: i16, mv: BitMove, flag: u8, depth: u8)
    requires
        tt.wf(),
        sane_table(tt),
        sane_score(score),
    ensures
        tt.touched(hash).wf(),
        sane_table(tt.touched(hash)),
        tt.stored(hash, score, mv, flag, depth).wf(),
        sane_table(tt.stored(hash, score, mv, flag, depth)),
{
    tt.lemma_slot(hash);
    tt.lemma_keeps_shape(hash, score, mv, flag, depth);
}

/// The moves that a node tries can be made, and leave well-formed positions.
proof fn lemma_node_move(pos: Position, quiet: bool, i: int)
    requires
        pos.wf(),
        0 <= i < node_moves(pos, quiet).len(),
    ensures
        pos.applicable(node_moves(pos, quiet)[i]),
        pos.apply(node_moves(pos, quiet)[i]).wf(),
{
    if quiet {
        lemma_captures_are_filtered(pos);
        lemma_moves_applicable(pos, true, i);
    } else {
        lemma_moves_applicable(pos, false, i);
    }
    pos.lemma_apply_wf(node_moves(pos, quiet)[i]);
}

/// With a window that is not beyond win and loss, and a table of scores
/// between loss and win, every node returns a score between loss and win
/// and leaves such a table.
pub proof fn lemma_node_sane(
    pos: Position,
    tt: Table,
    alpha: i16,
    beta: i16,
    depth: u16,
    ply: u16,
    quiet: bool,
)
    requires
        pos.wf(),
        tt.wf(),
        sane_table(tt),
        sane_window(alpha, beta),
    ensures
        search_node(pos, tt, alpha, beta, depth, ply, quiet) matches Some((r, after))
            ==> sane_score(r.score) && after.wf() && sane_table(after),
    decreases
            (if quiet {
                0int
            } else {
                1int
            }),
            depth,
            1int,
            0int,
{
    let tt1 = after_probe(pos, tt, ply, quiet);
    lemma_table_stays_sane(tt, pos.hash(), 0, BitMove { data: 0 }, 0, 0);
    lemma_eval_bound(pos);
    if cached(pos, tt, alpha, beta, depth, ply, quiet) {
        tt.lemma_slot(pos.hash());
    } else if depth == 0 {
        if !quiet && pos.last_capture() {
            lemma_node_sane(pos, tt1, alpha, beta, QUIESCENCE_DEPTH, ply, true);
        }
    } else if !quiet && futile(pos, alpha, depth) {
        lemma_node_sane(pos, tt1, alpha, beta, QUIESCENCE_DEPTH, ply, true);
    } else {
        let moves = node_moves(pos, quiet);
        if 0 < moves.len() <= MAX_MOVES {
            lemma_moves_sane(
                pos,
                tt1,
                moves,
                0,
                alpha,
                alpha,
                beta,
                BitMove { data: 0 },
                depth,
                ply,
                quiet,
            );
        }
    }
}

/// The same for a node from its move number `i` on.
pub proof fn lemma_moves_sane(
    pos: Position,
    tt: Table,
    moves: Seq<BitMove>,
    i: int,
    alpha0: i16,
    alpha: i16,
    beta: i16,
    best: BitMove,
    depth: u16,
    ply: u16,
    quiet: bool,
)
    requires
        pos.wf(),
        tt.wf(),
        sane_table(tt),
        moves == node_moves(pos, quiet),
        moves.len() > 0,
        0 <= i <= moves.len(),
        depth >= 1,
        beta >= LOSS,
        alpha <= WIN,
        i > 0 ==> alpha >= LOSS,
    ensures
        search_moves(pos, tt, moves, i, alpha0, alpha, beta, best, depth, ply, quiet) matches Some(
            (r, after),
        ) ==> sane_score(r.score) && after.wf() && sane_table(after),
    decreases
            (if quiet {
                0int
            } else {
                1int
            }),
            depth,
            0int,
            moves.len() - i,
{
    let keep = stored_depth(depth, quiet);
    if i >= moves.len() {
        let flag = if alpha > alpha0 {
            FLAG_EXACT
        } else {
            FLAG_UPPER
        };
        lemma_table_stays_sane(tt, pos.hash(), alpha, best, flag, keep);
    } else if pos.wins(moves[i]) {
    } else {
        lemma_node_move(pos, quiet, i);
        let child = search_node(
            pos.apply(moves[i]),
            tt,
            negated(beta),
            negated(alpha),
            (depth - 1) as u16,
            next_ply(ply),
            quiet,
        );
        lemma_node_sane(
            pos.apply(moves[i]),
            tt,
            negated(beta),
            negated(alpha),
            (depth - 1) as u16,
            next_ply(ply),
            quiet,
        );
        match child {
            None => {},
            Some((reply, tt2)) => {
                let score = negated(reply.score);
                if score > alpha && score >= beta {
                    lemma_table_stays_sane(tt2, pos.hash(), score, moves[i], FLAG_LOWER, keep);
                } else if score > alpha {
                    lemma_moves_sane(
                        pos,
                        tt2,
                        moves,
                        i + 1,
                        alpha0,
                        score,
                        beta,
                        moves[i],
                        depth,
                        ply,
                        quiet,
                    );
                } else {
                    lemma_moves_sane(
                        pos,
                        tt2,
                        moves,
                        i + 1,
                        alpha0,
                        alpha,
                        beta,
                        best,
                        depth,
                        ply,
                        quiet,
                    );
                }
            },
        }
    }
}

/// A result that takes the enemy castle: a move that can be made and lands
/// on the castle, with the score of a win.
pub open spec fn is_win(pos: Position, r: MoveWithScore) -> bool {
    pos.wins(r.bit_move) && pos.applicable(r.bit_move) && r.score == WIN
}

/// Where one of the moves from number `i` on lands on the enemy castle and
/// beta is above the score of a win, no earlier move ends the node, and the
/// node returns a move onto the castle with the score of a win.
proof fn lemma_moves_reach_win(
    pos: Position,
    tt: Table,
    moves: Seq<BitMove>,
    i: int,
    j: int,
    alpha0: i16,
    alpha: i16,
    beta: i16,
    best: BitMove,
    depth: u16,
    ply: u16,
    quiet: bool,
)
    requires
        pos.wf(),
        tt.wf(),
        sane_table(tt),
        moves == node_moves(pos, quiet),
        0 <= i <= j < moves.len(),
        pos.wins(moves[j]),
        depth >= 1,
        beta > WIN,
        alpha <= WIN,
    ensures
        search_moves(pos, tt, moves, i, alpha0, alpha, beta, best, depth, ply, quiet) matches Some(
            (r, _),
        ) ==> is_win(pos, r),
    decreases j - i,
{
    lemma_node_move(pos, quiet, i);
    if !pos.wins(moves[i]) {
        lemma_node_sane(
            pos.apply(moves[i]),
            tt,
            negated(beta),
            negated(alpha),
            (depth - 1) as u16,
            next_ply(ply),
            quiet,
        );
        match search_node(
            pos.apply(moves[i]),
            tt,
            negated(beta),
            negated(alpha),
            (depth - 1) as u16,
            next_ply(ply),
            quiet,
        ) {
            None => {},
            Some((reply, tt2)) => {
                let score = negated(reply.score);
                if score > alpha {
                    lemma_moves_reach_win(
                        pos,
                        tt2,
                        moves,
                        i + 1,
                        j,
                        alpha0,
                        score,
                        beta,
                        moves[i],
                        depth,
                        ply,
                        quiet,
                    );
                } else {
                    lemma_moves_reach_win(
                        pos,
                        tt2,
                        moves,
                        i + 1,
                        j,
                        alpha0,
                        alpha,
                        beta,
                        best,
                        depth,
                        ply,
                        quiet,
                    );
                }
            },
        }
    }
}

/// Whether one of the moves of `pos` lands on the enemy castle.
pub open spec fn can_win(pos: Position) -> bool {
    exists|j: int| 0 <= j < moves_of(pos).len() && pos.wins(#[trigger] moves_of(pos)[j])
}

/// In a position one move from taking the enemy castle, the root of a search
/// of one ply or more in an empty table, with alpha at most and beta above
/// the score of a win, returns a move onto the castle with the score of a
/// win, unless a list runs full.
proof fn lemma_root_finds_win(
    pos: Position,
    slots: nat,
    age: u8,
    alpha: i16,
    beta: i16,
    depth: u16,
)
    requires
        pos.wf(),
        Table::fresh(slots, age).wf(),
        can_win(pos),
        depth >= 1,
        alpha <= WIN < beta,
    ensures
        node_result(pos, Table::fresh(slots, age), alpha, beta, depth, 0, false) matches Some(r)
            ==> is_win(pos, r),
{
    let tt = Table::fresh(slots, age);
    let all = moves_of(pos);
    let j = choose|j: int| 0 <= j < all.len() && pos.wins(#[trigger] all[j]);
    assert(sane_table(tt));
    if futile(pos, alpha, depth) {
        let pred = |m: BitMove| pos.captures(m);
        let captures = node_moves(pos, true);
        Table::lemma_fresh_misses(slots, age, pos.hash());
        assert(all.contains(all[j]));
        assert(pred(all[j]));
        all.lemma_filter_contains_rev(pred, all[j]);
        assert(captures.contains(all[j]));
        let k = choose|k: int| 0 <= k < captures.len() && captures[k] == all[j];
        assert(search_node(pos, tt, alpha, beta, depth, 0, false) == search_node(
            pos,
            tt,
            alpha,
            beta,
            QUIESCENCE_DEPTH,
            0,
            true,
        ));
        if captures.len() <= MAX_MOVES {
            lemma_moves_reach_win(
                pos,
                tt,
                captures,
                0,
                k,
                alpha,
                alpha,
                beta,
                BitMove { data: 0 },
                QUIESCENCE_DEPTH,
                0,
                true,
            );
        }
    } else if all.len() <= MAX_MOVES {
        lemma_moves_reach_win(
            pos,
            tt,
            all,
            0,
            j,
            alpha,
            alpha,
            beta,
            BitMove { data: 0 },
            depth,
            0,
            false,
        );
    }
}

proof fn lemma_deepen_finds_win(
    pos: Position,
    slots: nat,
    age: u8,
    depth: u16,
    max_depth: u16,
    alpha: i16,
    beta: i16,
    best: MoveWithScore,
)
    requires
        pos.wf(),
        Table::fresh(slots, age).wf(),
        can_win(pos),
        1 <= depth <= max_depth,
        alpha <= WIN < beta,
    ensures
        deepen(pos, slots, age, depth, max_depth, alpha, beta, best) matches Some(r) ==> is_win(
            pos,
            r,
        ),
    decreases max_depth - depth,
{
    lemma_root_finds_win(pos, slots, age, alpha, beta, depth);
    lemma_root_finds_win(pos, slots, age, NEG_INF, INF, depth);
    match pass_result(pos, slots, age, alpha, beta, depth) {
        None => {},
        Some(r) => {
            assert(is_win(pos, r));
            assert(r.bit_move.data != 0);
            if max_depth - depth >= 2 {
                lemma_deepen_finds_win(
                    pos,
                    slots,
                    age,
                    (depth + 2) as u16,
                    max_depth,
                    window_bound(WIN, max_depth, depth, false),
                    window_bound(WIN, max_depth, depth, true),
                    r,
                );
            }
        },
    }
}

/// In a position one move from taking the enemy castle, a search to one ply
/// or more returns a move onto the castle with the score of a win, unless a
/// list runs full.
pub proof fn lemma_search_finds_win(pos: Position, slots: nat, age: u8, max_depth: u16)
    requires
        pos.wf(),
        Table::fresh(slots, age).wf(),
        can_win(pos),
        max_depth >= 1,
    ensures
        best_move(pos, slots, age, max_depth) matches Some(r) ==> is_win(pos, r),
{
    lemma_deepen_finds_win(
        pos,
        slots,
        age,
        1,
        max_depth,
        NEG_INF,
        INF,
        MoveWithScore { bit_move: BitMove { data: 0 }, score: NEG_INF },
    );
}

/// A position without a move is lost: the root of a search of one ply or
/// more with the full window returns the null move with the score of a
/// loss, whatever the table holds.
pub proof fn lemma_root_without_moves(pos: Position, tt: Table, depth: u16)
    requires
        pos.wf(),
        moves_of(pos).len() == 0,
        depth >= 1,
    ensures
        node_result(pos, tt, NEG_INF, INF, depth, 0, false) == Some(
            MoveWithScore { bit_move: BitMove { data: 0 }, score: LOSS },
        ),
{
    lemma_eval_bound(pos);
    lemma_no_moves_is_loss(pos, tt, NEG_INF, INF, depth, 0);
}

proof fn lemma_deepen_without_moves(
    pos: Position,
    slots: nat,
    age: u8,
    depth: u16,
    max_depth: u16,
    best: MoveWithScore,
)
    requires
        pos.wf(),
        moves_of(pos).len() == 0,
        depth >= 1,
    ensures
        deepen(pos, slots, age, depth, max_depth, NEG_INF, INF, best) == Some(best),
    decreases max_depth - depth,
{
    if depth <= max_depth {
        lemma_root_without_moves(pos, Table::fresh(slots, age), depth);
        if max_depth - depth >= 2 {
            lemma_deepen_without_moves(pos, slots, age, (depth + 2) as u16, max_depth, best);
        }
    }
}

/// A search of a position without a move returns the null move.
pub proof fn lemma_search_without_moves(pos: Position, slots: nat, age: u8, max_depth: u16)
    requires
        pos.wf(),
        moves_of(pos).len() == 0,
    ensures
        best_move(pos, slots, age, max_depth) == Some(
            MoveWithScore { bit_move: BitMove { data: 0 }, score: NEG_INF },
        ),
{
    lemma_deepen_without_moves(
        pos,
        slots,
        age,
        1,
        max_depth,
        MoveWithScore { bit_move: BitMove { data: 0 }, score: NEG_INF },
    );
}

/// Two positions with the same pieces, castles and side to move, whose last
/// moves both took a piece or both did not. Their earlier moves may differ.
pub open spec fn same_board(a: Position, b: Position) -> bool {
    &&& a.white == b.white
    &&& a.black == b.black
    &&& a.white_castle == b.white_castle
    &&& a.black_castle == b.black_castle
    &&& a.side == b.side
    &&& a.last_capture() == b.last_capture()
}

proof fn lemma_node_moves_of_same_board(a: Position, b: Position, quiet: bool)
    requires
        same_board(a, b),
    ensures
        node_moves(a, quiet) == node_moves(b, quiet),
{
    lemma_moves_of_same_board(a, b);
    let pa = |m: BitMove| a.captures(m);
    let pb = |m: BitMove| b.captures(m);
    assert(pa =~= pb);
}

/// A node returns the same for two positions that differ only in the moves
/// that led to them.
pub proof fn lemma_node_of_same_board(
    a: Position,
    b: Position,
    tt: Table,
    alpha: i16,
    beta: i16,
    depth: u16,
    ply: u16,
    quiet: bool,
)
    requires
        same_board(a, b),
    ensures
        search_node(a, tt, alpha, beta, depth, ply, quiet) == search_node(
            b,
            tt,
            alpha,
            beta,
            depth,
            ply,
            quiet,
        ),
    decreases
            (if quiet {
                0int
            } else {
                1int
            }),
            depth,
            1int,
            0int,
{
    let tt1 = after_probe(a, tt, ply, quiet);
    lemma_node_moves_of_same_board(a, b, quiet);
    assert(eval_of(a) == eval_of(b));
    assert(a.hash() == b.hash());
    if cached(a, tt, alpha, beta, depth, ply, quiet) {
    } else if depth == 0 {
        if !quiet && a.last_capture() {
            lemma_node_of_same_board(a, b, tt1, alpha, beta, QUIESCENCE_DEPTH, ply, true);
        }
    } else if !quiet && futile(a, alpha, depth) {
        lemma_node_of_same_board(a, b, tt1, alpha, beta, QUIESCENCE_DEPTH, ply, true);
    } else {
        let moves = node_moves(a, quiet);
        if 0 < moves.len() <= MAX_MOVES {
            lemma_moves_of_same_board_agree(
                a,
                b,
                tt1,
                moves,
                0,
                alpha,
                alpha,
                beta,
                BitMove { data: 0 },
                depth,
                ply,
                quiet,
            );
        }
    }
}

proof fn lemma_moves_of_same_board_agree(
    a: Position,
    b: Position,
    tt: Table,
    moves: Seq<BitMove>,
    i: int,
    alpha0: i16,
    alpha: i16,
    beta: i16,
    best: BitMove,
    depth: u16,
    ply: u16,
    quiet: bool,
)
    requires
        same_board(a, b),
        0 <= i <= moves.len(),
        depth >= 1,
    ensures
        search_moves(a, tt, moves, i, alpha0, alpha, beta, best, depth, ply, quiet)
            == search_moves(b, tt, moves, i, alpha0, alpha, beta, best, depth, ply, quiet),
    decreases
            (if quiet {
                0int
            } else {
                1int
            }),
            depth,
            0int,
            moves.len() - i,
{
    assert(a.hash() == b.hash());
    if i < moves.len() && !a.wins(moves[i]) {
        let m = moves[i];
        let a2 = a.apply(m);
        let b2 = b.apply(m);
        assert(a2.trail.last().capture == b2.trail.last().capture);
        assert(same_board(a2, b2));
        lemma_node_of_same_board(
            a2,
            b2,
            tt,
            negated(beta),
            negated(alpha),
            (depth - 1) as u16,
            next_ply(ply),
            quiet,
        );
        match search_node(
            a2,
            tt,
            negated(beta),
            negated(alpha),
            (depth - 1) as u16,
            next_ply(ply),
            quiet,
        ) {
            None => {},
            Some((reply, tt2)) => {
                let score = negated(reply.score);
                if score > alpha && score >= beta {
                } else if score > alpha {
                    lemma_moves_of_same_board_agree(
                        a,
                        b,
                        tt2,
                        moves,
                        i + 1,
                        alpha0,
                        score,
                        beta,
                        m,
                        depth,
                        ply,
                        quiet,
                    );
                } else {
                    lemma_moves_of_same_board_agree(
                        a,
                        b,
                        tt2,
                        moves,
                        i + 1,
                        alpha0,
                        alpha,
                        beta,
                        best,
                        depth,
                        ply,
                        quiet,
                    );
                }
            },
        }
    }
}

proof fn lemma_deepen_of_same_board(
    a: Position,
    b: Position,
    slots: nat,
    age: u8,
    depth: u16,
    max_depth: u16,
    alpha: i16,
    beta: i16,
    best: MoveWithScore,
)
    requires
        same_board(a, b),
    ensures
        deepen(a, slots, age, depth, max_depth, alpha, beta, best) == deepen(
            b,
            slots,
            age,
            depth,
            max_depth,
            alpha,
            beta,
            best,
        ),
    decreases max_depth - depth,
{
    if depth <= max_depth {
        let tt = Table::fresh(slots, age);
        lemma_node_of_same_board(a, b, tt, alpha, beta, depth, 0, false);
        lemma_node_of_same_board(a, b, tt, NEG_INF, INF, depth, 0, false);
        match pass_result(a, slots, age, alpha, beta, depth) {
            None => {},
            Some(r) => {
                if max_depth - depth >= 2 {
                    let found = r.bit_move.data != 0;
                    lemma_deepen_of_same_board(
                        a,
                        b,
                        slots,
                        age,
                        (depth + 2) as u16,
                        max_depth,
                        if found {
                            window_bound(r.score, max_depth, depth, false)
                        } else {
                            alpha
                        },
                        if found {
                            window_bound(r.score, max_depth, depth, true)
                        } else {
                            beta
                        },
                        if found {
                            r
                        } else {
                            best
                        },
                    );
                }
            },
        }
    }
}

/// A search is determined by the board and the depth: two searches to the
/// same depth of positions with the same pieces, castles and side to move,
/// whose last moves both took a piece or both did not, choose the same move
/// with the same score, whatever moves led to the positions.
pub proof fn lemma_search_is_determined(
    a: Position,
    b: Position,
    slots: nat,
    age: u8,
    max_depth: u16,
)
    requires
        same_board(a, b),
    ensures
        best_move(a, slots, age, max_depth) == best_move(b, slots, age, max_depth),
{
    lemma_deepen_of_same_board(
        a,
        b,
        slots,
        age,
        1,
        max_depth,
        NEG_INF,
        INF,
        MoveWithScore { bit_move: BitMove { data: 0 }, score: NEG_INF },
    );
}

} // verus!
