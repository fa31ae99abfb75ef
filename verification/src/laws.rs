use vstd::prelude::*;

use crate::board::Board;
use crate::board::VictoryInfo;
use crate::board::dir_hit;
use crate::board::victory_result;
use crate::cell::CellState;
use crate::geometry::Direction;
use crate::geometry::chain_col;
use crate::geometry::chain_row;
use crate::geometry::lemma_row_major_bound;
use crate::geometry::row_major;
use crate::player::Player;

verus! {

/// `(rr, cc)` is one of the cells of the chain of length `chain_size` that
/// starts at `(r, c)` and steps along `d`.
pub open spec fn on_chain(chain_size: int, r: int, c: int, d: Direction, rr: int, cc: int) -> bool {
    exists|t: int|
        0 <= t < chain_size && rr == #[trigger] chain_row(r, d, t) && cc == #[trigger] chain_col(
            c,
            d,
            t,
        )
}

/// The step index at which the chain from `(r, c)` along `d` passes through
/// `(rr, cc)`; meaningful only when `on_chain` holds of the same arguments.
spec fn chain_param(chain_size: int, r: int, c: int, d: Direction, rr: int, cc: int) -> int {
    choose|t: int|
        0 <= t < chain_size && rr == #[trigger] chain_row(r, d, t) && cc == #[trigger] chain_col(
            c,
            d,
            t,
        )
}

/// Every cell of the board off the chain from `(r, c)` along `d` is empty.
pub open spec fn only_chain_marked(b: Board, r: int, c: int, d: Direction) -> bool {
    forall|r2: int, c2: int|
        0 <= r2 < b.size() && 0 <= c2 < b.size() && !on_chain(b.chain(), r, c, d, r2, c2)
            ==> b.grid()[#[trigger] row_major(b.size(), r2, c2)] == CellState::Empty
}

/// An all-empty board holds no winning chain, so a fresh board's victory scan
/// reports `None`.
pub proof fn lemma_empty_board_no_victory(b: Board)
    requires
        b.wf(),
        forall|i: int| 0 <= i < b.grid().len() ==> b.grid()[i] == CellState::Empty,
    ensures
        !b.has_victory(),
{
    if b.has_victory() {
        let (p, r, c, d) = choose|p: Player, r: int, c: int, d: Direction| b.wins_at(p, r, c, d);
        assert(b.chain_cell_ok(p, r, c, d, 0));
        lemma_row_major_bound(b.size(), chain_row(r, d, 0), chain_col(c, d, 0));
        assert(false);
    }
}

/// The step index of the chain from `(r, c)` along `d` at which cell `i` of
/// the chain from `(r2, c2)` along `d2` sits.
spec fn step_param(b: Board, r: int, c: int, d: Direction, r2: int, c2: int, d2: Direction, i: int) -> int {
    chain_param(b.chain(), r, c, d, chain_row(r2, d2, i), chain_col(c2, d2, i))
}

/// When every mark on the board sits on the chain from `(r, c)` along `d`,
/// cell `i` of any winning chain sits on that chain too, at a well-defined
/// step index.
proof fn lemma_point_on_chain(b: Board, r: int, c: int, d: Direction, p2: Player, r2: int, c2: int, d2: Direction, i: int)
    requires
        b.wf(),
        only_chain_marked(b, r, c, d),
        b.wins_at(p2, r2, c2, d2),
        0 <= i < b.chain(),
    ensures
        ({
            let t = step_param(b, r, c, d, r2, c2, d2, i);
            &&& 0 <= t < b.chain()
            &&& chain_row(r2, d2, i) == chain_row(r, d, t)
            &&& chain_col(c2, d2, i) == chain_col(c, d, t)
        }),
{
    let k: int = b.chain();
    assert(b.chain_cell_ok(p2, r2, c2, d2, i));
    let rr: int = chain_row(r2, d2, i);
    let cc: int = chain_col(c2, d2, i);
    if !on_chain(k, r, c, d, rr, cc) {
        assert(b.grid()[row_major(b.size(), rr, cc)] == CellState::Empty);
        assert(false);
    }
    let t: int = chain_param(k, r, c, d, rr, cc);
    assert(0 <= t < k && rr == chain_row(r, d, t) && cc == chain_col(c, d, t));
}

/// The step indices of the previous lemma advance in lockstep: cell `i` of
/// the second chain sits `i` steps beyond where its cell `0` sits.
proof fn lemma_chain_params_advance(b: Board, r: int, c: int, d: Direction, p2: Player, r2: int, c2: int, d2: Direction, i: int)
    requires
        b.wf(),
        only_chain_marked(b, r, c, d),
        b.wins_at(p2, r2, c2, d2),
        0 <= i < b.chain(),
    ensures
        ({
            let t = step_param(b, r, c, d, r2, c2, d2, i);
            &&& 0 <= t < b.chain()
            &&& chain_row(r2, d2, i) == chain_row(r, d, t)
            &&& chain_col(c2, d2, i) == chain_col(c, d, t)
            &&& t == step_param(b, r, c, d, r2, c2, d2, 0) + i
        }),
    decreases i,
{
    lemma_point_on_chain(b, r, c, d, p2, r2, c2, d2, i);
    if i > 0 {
        lemma_chain_params_advance(b, r, c, d, p2, r2, c2, d2, i - 1);
        let tp: int = step_param(b, r, c, d, r2, c2, d2, i - 1);
        let ti: int = step_param(b, r, c, d, r2, c2, d2, i);
        assert(ti == tp + 1);
    }
}

/// A board whose marks form exactly one complete chain admits no other
/// winning chain: any winning chain coincides with it cell by cell, and its
/// winner is the chain's owner.
pub proof fn lemma_lone_chain_unique(b: Board, p: Player, r: int, c: int, d: Direction, p2: Player, r2: int, c2: int, d2: Direction)
    requires
        b.wf(),
        b.wins_at(p, r, c, d),
        only_chain_marked(b, r, c, d),
        b.wins_at(p2, r2, c2, d2),
    ensures
        p2 == p,
        forall|i: int|
            0 <= i < b.chain() ==> #[trigger] chain_row(r2, d2, i) == chain_row(r, d, i)
                && #[trigger] chain_col(c2, d2, i) == chain_col(c, d, i),
{
    let k: int = b.chain();
    lemma_chain_params_advance(b, r, c, d, p2, r2, c2, d2, 0);
    lemma_chain_params_advance(b, r, c, d, p2, r2, c2, d2, k - 1);
    let t0: int = step_param(b, r, c, d, r2, c2, d2, 0);
    assert(t0 == 0);
    assert forall|i: int|
        0 <= i < k implies #[trigger] chain_row(r2, d2, i) == chain_row(r, d, i)
        && #[trigger] chain_col(c2, d2, i) == chain_col(c, d, i) by {
        lemma_chain_params_advance(b, r, c, d, p2, r2, c2, d2, i);
    }
    assert(b.chain_cell_ok(p2, r2, c2, d2, 0));
    assert(b.chain_cell_ok(p, r, c, d, 0));
    assert(p2.mark() == p.mark());
}

/// A board whose marks form exactly one complete chain pins the victory
/// scan's report: the winner is the chain's owner and the positions are the
/// chain's cells in step order.
pub proof fn lemma_lone_chain_victory_info(b: Board, p: Player, r: int, c: int, d: Direction, info: VictoryInfo)
    requires
        b.wf(),
        b.wins_at(p, r, c, d),
        only_chain_marked(b, r, c, d),
        victory_result(b, info),
    ensures
        info.winner == p,
        info.positions@.len() == b.chain(),
        forall|i: int|
            0 <= i < b.chain() ==> (#[trigger] info.positions@[i]).0 == chain_row(r, d, i)
                && info.positions@[i].1 == chain_col(c, d, i),
{
    let d2 = choose|d2: Direction|
        #[trigger] dir_hit(b, d2, info) && (forall|d3: Direction|
            d3.rank() < d2.rank() ==> #[trigger] b.no_win_in_dir(d3));
    assert(dir_hit(b, d2, info));
    let r2: int = info.positions@[0].0 as int;
    let c2: int = info.positions@[0].1 as int;
    lemma_lone_chain_unique(b, p, r, c, d, info.winner, r2, c2, d2);
}

} // verus!
