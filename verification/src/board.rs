use vstd::prelude::*;

use crate::cell::CellState;
use crate::errors::BoardInitializationError;
use crate::geometry::Direction;
use crate::geometry::chain_col;
use crate::geometry::chain_fits;
use crate::geometry::chain_row;
use crate::geometry::lemma_grid_bounds;
use crate::geometry::lemma_row_major_bound;
use crate::geometry::lemma_row_major_injective;
use crate::geometry::lemma_row_major_order;
use crate::geometry::row_major;
use crate::player::Player;
use crate::player::player_of;

verus! {

/// A square N-in-a-row board: the grid of cells in row-major order, the
/// winning-chain length, the player expected to move next, and one
/// precomputed eligibility mask per scan direction.
#[derive(Debug, Clone)]
pub struct Board {
    board_size: usize,
    chain_size: usize,
    states: Vec<CellState>,
    next_turn: Player,
    horizontal_mask: Vec<bool>,
    vertical_mask: Vec<bool>,
    diagonal_1_mask: Vec<bool>,
    diagonal_2_mask: Vec<bool>,
}

/// The outcome of a successful victory scan: the winning player together with
/// the winning cells, listed from the chain's start stepping along its direction.
#[derive(Debug)]
pub struct VictoryInfo {
    pub winner: Player,
    pub positions: Vec<(usize, usize)>,
}

/// A correct eligibility mask for direction `d`: one entry per cell in
/// row-major order, true exactly when a whole chain starting at that cell
/// stays on the board.
pub open spec fn mask_ok(board_size: int, chain_size: int, d: Direction, m: Seq<bool>) -> bool {
    &&& m.len() == board_size * board_size
    &&& forall|r: int, c: int|
        0 <= r < board_size && 0 <= c < board_size ==> m[#[trigger] row_major(board_size, r, c)]
            == chain_fits(board_size, chain_size, r, c, d)
}

/// `info` lists exactly the cells of the chain from `(r, c)` along `d`, in step order.
pub open spec fn describes_chain(info: VictoryInfo, chain_size: int, r: int, c: int, d: Direction) -> bool {
    &&& info.positions@.len() == chain_size
    &&& forall|i: int|
        0 <= i < chain_size ==> (#[trigger] info.positions@[i]).0 == chain_row(r, d, i)
            && info.positions@[i].1 == chain_col(c, d, i)
}

impl Board {
    /// Side length of the grid.
    pub closed spec fn size(self) -> int {
        self.board_size as int
    }

    /// Number of equal marks in a row needed to win.
    pub closed spec fn chain(self) -> int {
        self.chain_size as int
    }

    /// The grid contents in row-major order.
    pub closed spec fn grid(self) -> Seq<CellState> {
        self.states@
    }

    /// The player expected to move next.
    pub closed spec fn turn(self) -> Player {
        self.next_turn
    }

    /// The cached eligibility mask of direction `d`.
    pub closed spec fn mask(self, d: Direction) -> Seq<bool> {
        match d {
            Direction::Horizontal => self.horizontal_mask@,
            Direction::Vertical => self.vertical_mask@,
            Direction::DiagonalDownRight => self.diagonal_1_mask@,
            Direction::DiagonalUpRight => self.diagonal_2_mask@,
        }
    }

    /// Structural invariant: the sizes are positive and consistent, the grid
    /// covers the whole board, and each cached mask is the correct mask of its
    /// direction.
    pub open spec fn wf(self) -> bool {
        &&& 1 <= self.chain() <= self.size()
        &&& self.size() * self.size() <= usize::MAX
        &&& self.grid().len() == self.size() * self.size()
        &&& forall|d: Direction| mask_ok(self.size(), self.chain(), d, #[trigger] self.mask(d))
    }

    /// Cell `i` of the chain from `(r, c)` along `d` lies on the board and
    /// carries `p`'s mark.
    pub open spec fn chain_cell_ok(self, p: Player, r: int, c: int, d: Direction, i: int) -> bool {
        &&& 0 <= chain_row(r, d, i) < self.size()
        &&& 0 <= chain_col(c, d, i) < self.size()
        &&& self.grid()[row_major(self.size(), chain_row(r, d, i), chain_col(c, d, i))] == p.mark()
    }

    /// Player `p` owns a complete winning chain starting at `(r, c)` along `d`.
    pub open spec fn wins_at(self, p: Player, r: int, c: int, d: Direction) -> bool {
        forall|i: int| 0 <= i < self.chain() ==> #[trigger] self.chain_cell_ok(p, r, c, d, i)
    }

    /// Some player owns a winning chain starting at `(r, c)` along `d`.
    pub open spec fn win_starts_at(self, d: Direction, r: int, c: int) -> bool {
        exists|p: Player| self.wins_at(p, r, c, d)
    }

    /// The board contains some complete winning chain.
    pub open spec fn has_victory(self) -> bool {
        exists|p: Player, r: int, c: int, d: Direction| self.wins_at(p, r, c, d)
    }

    /// No winning chain along `d` starts at a cell preceding `(r, c)` in
    /// row-major order.
    pub open spec fn no_win_before(self, d: Direction, r: int, c: int) -> bool {
        forall|r2: int, c2: int|
            0 <= r2 < self.size() && 0 <= c2 < self.size() && (r2 < r || (r2 == r && c2 < c))
                ==> !(#[trigger] self.win_starts_at(d, r2, c2))
    }

    /// No winning chain at all runs along `d`.
    pub open spec fn no_win_in_dir(self, d: Direction) -> bool {
        forall|r: int, c: int|
            0 <= r < self.size() && 0 <= c < self.size()
                ==> !(#[trigger] self.win_starts_at(d, r, c))
    }
}

/// `info` is the result a scan of direction `d` must produce: a winning chain
/// whose start cell is the first winning start in row-major order.
pub open spec fn dir_hit(b: Board, d: Direction, info: VictoryInfo) -> bool {
    &&& info.positions@.len() == b.chain()
    &&& b.wins_at(info.winner, info.positions@[0].0 as int, info.positions@[0].1 as int, d)
    &&& describes_chain(info, b.chain(), info.positions@[0].0 as int, info.positions@[0].1 as int, d)
    &&& b.no_win_before(d, info.positions@[0].0 as int, info.positions@[0].1 as int)
}

/// `info` is the result the full victory scan must produce: the first hit in
/// the fixed direction order, every direction of lower rank being free of
/// winning chains.
pub open spec fn victory_result(b: Board, info: VictoryInfo) -> bool {
    exists|d: Direction|
        #[trigger] dir_hit(b, d, info)
            && (forall|d2: Direction| d2.rank() < d.rank() ==> #[trigger] b.no_win_in_dir(d2))
}

impl Board {
    /// Row-major index of `(r, c)`.
    fn pos_to_idx(&self, r: usize, c: usize) -> (idx: usize)
        requires
            self.wf(),
            r < self.size(),
            c < self.size(),
        ensures
            idx == row_major(self.size(), r as int, c as int),
            idx < self.grid().len(),
    {
        proof {
            lemma_row_major_bound(self.size(), r as int, c as int);
        }
        r * self.board_size + c
    }

    /// Splits a row-major index back into `(row, column)`.
    fn idx_to_pos(&self, idx: usize) -> (pos: (usize, usize))
        requires
            self.wf(),
            idx < self.grid().len(),
        ensures
            pos.0 < self.size(),
            pos.1 < self.size(),
            idx == row_major(self.size(), pos.0 as int, pos.1 as int),
    {
        proof {
            assert(idx / self.board_size < self.board_size && idx % self.board_size
                < self.board_size && idx == (idx / self.board_size) * self.board_size + idx
                % self.board_size) by (nonlinear_arith)
                requires
                    1 <= self.board_size,
                    idx < self.board_size * self.board_size,
            ;
        }
        (idx / self.board_size, idx % self.board_size)
    }

    /// Whether `(r, c)` lies on the board.
    fn in_bounds(&self, r: usize, c: usize) -> (b: bool)
        requires
            self.wf(),
        ensures
            b == (r < self.size() && c < self.size()),
    {
        r < self.board_size && c < self.board_size
    }

    /// Builds the eligibility mask of one direction: entry `(r, c)` is true
    /// exactly when a whole chain starting there stays on the board.
    #[verifier::loop_isolation(false)]
    fn generate_mask(board_size: usize, chain_size: usize, dir: Direction) -> (m: Vec<bool>)
        requires
            1 <= chain_size <= board_size,
            board_size * board_size <= usize::MAX,
        ensures
            mask_ok(board_size as int, chain_size as int, dir, m@),
    {
        let mut m: Vec<bool> = Vec::new();
        let mut r: usize = 0;
        while r < board_size
            invariant
                r <= board_size,
                m@.len() == r * board_size,
                forall|r2: int, c2: int|
                    0 <= r2 && 0 <= c2 < board_size && row_major(board_size as int, r2, c2)
                        < m@.len() ==> m@[#[trigger] row_major(board_size as int, r2, c2)]
                        == chain_fits(board_size as int, chain_size as int, r2, c2, dir),
            decreases board_size - r,
        {
            let mut c: usize = 0;
            proof {
                lemma_grid_bounds(board_size as int);
            }
            while c < board_size
                invariant
                    c <= board_size,
                    r < board_size,
                    m@.len() == r * board_size + c,
                    forall|r2: int, c2: int|
                        0 <= r2 && 0 <= c2 < board_size && row_major(board_size as int, r2, c2)
                            < m@.len() ==> m@[#[trigger] row_major(board_size as int, r2, c2)]
                            == chain_fits(board_size as int, chain_size as int, r2, c2, dir),
                decreases board_size - c,
            {
                let fits: bool = match dir {
                    Direction::Horizontal => c + chain_size <= board_size,
                    Direction::Vertical => r + chain_size <= board_size,
                    Direction::DiagonalDownRight => r + chain_size <= board_size && c + chain_size
                        <= board_size,
                    Direction::DiagonalUpRight => r + chain_size <= board_size && c >= chain_size
                        - 1,
                };
                proof {
                    assert(fits == chain_fits(board_size as int, chain_size as int, r as int,
                        c as int, dir));
                }
                m.push(fits);
                proof {
                    assert forall|r2: int, c2: int|
                        0 <= r2 && 0 <= c2 < board_size && row_major(board_size as int, r2, c2)
                            < m@.len() implies m@[#[trigger] row_major(board_size as int, r2, c2)]
                        == chain_fits(board_size as int, chain_size as int, r2, c2, dir) by {
                        if row_major(board_size as int, r2, c2) == m@.len() - 1 {
                            lemma_row_major_injective(board_size as int, r2, c2, r as int, c as int);
                        }
                    }
                }
                c += 1;
            }
            proof {
                assert((r + 1) * board_size == r * board_size + board_size) by (nonlinear_arith);
            }
            r += 1;
        }
        proof {
            assert forall|r2: int, c2: int|
                0 <= r2 < board_size && 0 <= c2 < board_size implies m@[#[trigger] row_major(
                board_size as int, r2, c2)] == chain_fits(board_size as int, chain_size as int, r2,
                c2, dir) by {
                lemma_row_major_bound(board_size as int, r2, c2);
            }
        }
        m
    }

    /// Construction that trusts the caller to have checked the configuration;
    /// the validated `new` is the ordinary entry point.
    pub fn new_unchecked(board_size: usize, chain_size: usize) -> (b: Board)
        requires
            1 <= chain_size,
            chain_size <= board_size,
            board_size * board_size <= usize::MAX,
        ensures
            b.wf(),
            b.size() == board_size,
            b.chain() == chain_size,
            b.turn() == Player::Cross,
            b.grid().len() == board_size * board_size,
            forall|i: int| 0 <= i < b.grid().len() ==> b.grid()[i] == CellState::Empty,
    {
        let total_cells = board_size * board_size;

        let horizontal_mask = Self::generate_mask(board_size, chain_size, Direction::Horizontal);
        let vertical_mask = Self::generate_mask(board_size, chain_size, Direction::Vertical);
        let diagonal_1_mask = Self::generate_mask(board_size, chain_size, Direction::DiagonalDownRight);
        let diagonal_2_mask = Self::generate_mask(board_size, chain_size, Direction::DiagonalUpRight);

        let mut states: Vec<CellState> = Vec::new();
        let mut i: usize = 0;
        while i < total_cells
            invariant
                i <= total_cells,
                states@.len() == i,
                forall|j: int| 0 <= j < i ==> states@[j] == CellState::Empty,
            decreases total_cells - i,
        {
            states.push(CellState::Empty);
            i += 1;
        }

        let b = Board {
            board_size,
            chain_size,
            states,
            next_turn: Player::Cross,
            horizontal_mask,
            vertical_mask,
            diagonal_1_mask,
            diagonal_2_mask,
        };
        proof {
            assert forall|d: Direction|
                mask_ok(b.size(), b.chain(), d, #[trigger] b.mask(d)) by {
                match d {
                    Direction::Horizontal => assert(b.mask(d) == b.horizontal_mask@),
                    Direction::Vertical => assert(b.mask(d) == b.vertical_mask@),
                    Direction::DiagonalDownRight => assert(b.mask(d) == b.diagonal_1_mask@),
                    Direction::DiagonalUpRight => assert(b.mask(d) == b.diagonal_2_mask@),
                }
            }
        }
        b
    }

    /// Validated construction: fails exactly when the requested chain is
    /// longer than the board's side.
    pub fn new(board_size: usize, chain_size: usize) -> (res: Result<Board, BoardInitializationError>)
        requires
            1 <= board_size,
            1 <= chain_size,
            board_size * board_size <= usize::MAX,
        ensures
            match res {
                Ok(b) => {
                    &&& chain_size <= board_size
                    &&& b.wf()
                    &&& b.size() == board_size
                    &&& b.chain() == chain_size
                    &&& b.turn() == Player::Cross
                    &&& b.grid().len() == board_size * board_size
                    &&& forall|i: int| 0 <= i < b.grid().len() ==> b.grid()[i] == CellState::Empty
                },
                Err(e) => {
                    &&& chain_size > board_size
                    &&& e == (BoardInitializationError::ChainLargerThanBoard {
                        board_size,
                        chain_size,
                    })
                },
            },
    {
        if chain_size > board_size {
            return Err(BoardInitializationError::ChainLargerThanBoard { board_size, chain_size });
        }
        Ok(Self::new_unchecked(board_size, chain_size))
    }

    /// Side length of the grid.
    pub fn board_size(&self) -> (n: usize)
        ensures
            n == self.size(),
    {
        self.board_size
    }

    /// Number of equal marks in a row needed to win.
    pub fn chain_size(&self) -> (n: usize)
        ensures
            n == self.chain(),
    {
        self.chain_size
    }

    /// The player expected to move next.
    pub fn next_turn(&self) -> (p: Player)
        ensures
            p == self.turn(),
    {
        self.next_turn
    }

    /// The state of the cell `(r, c)`.
    pub fn cell(&self, r: usize, c: usize) -> (s: CellState)
        requires
            self.wf(),
            r < self.size(),
            c < self.size(),
        ensures
            s == self.grid()[row_major(self.size(), r as int, c as int)],
    {
        let idx = self.pos_to_idx(r, c);
        self.states[idx]
    }

    /// Writes one cell of the grid; move application built on top of this core
    /// calls it to place a mark.
    pub fn set_cell(&mut self, r: usize, c: usize, state: CellState)
        requires
            old(self).wf(),
            r < old(self).size(),
            c < old(self).size(),
        ensures
            final(self).wf(),
            final(self).size() == old(self).size(),
            final(self).chain() == old(self).chain(),
            final(self).turn() == old(self).turn(),
            forall|d: Direction| final(self).mask(d) == old(self).mask(d),
            final(self).grid() == old(self).grid().update(
                row_major(old(self).size(), r as int, c as int),
                state,
            ),
    {
        let idx = self.pos_to_idx(r, c);
        self.states[idx] = state;
        proof {
            assert forall|d: Direction| #[trigger] self.mask(d) == old(self).mask(d) by {}
            assert forall|d: Direction|
                mask_ok(self.size(), self.chain(), d, #[trigger] self.mask(d)) by {
                assert(self.mask(d) == old(self).mask(d));
            }
        }
    }

    /// Reads the cached eligibility mask of direction `dir` at cell `(r, c)`.
    pub fn mask_at(&self, dir: Direction, r: usize, c: usize) -> (b: bool)
        requires
            self.wf(),
            r < self.size(),
            c < self.size(),
        ensures
            b == chain_fits(self.size(), self.chain(), r as int, c as int, dir),
    {
        let idx = self.pos_to_idx(r, c);
        proof {
            assert(mask_ok(self.size(), self.chain(), dir, self.mask(dir)));
        }
        match dir {
            Direction::Horizontal => self.horizontal_mask[idx],
            Direction::Vertical => self.vertical_mask[idx],
            Direction::DiagonalDownRight => self.diagonal_1_mask[idx],
            Direction::DiagonalUpRight => self.diagonal_2_mask[idx],
        }
    }

    /// Tests whether a complete chain of one player's marks starts at `(r, c)`
    /// and runs along `dir`; returns its description, or `None` when no player
    /// owns such a chain there.
    #[verifier::loop_isolation(false)]
    fn check_chain(&self, r: usize, c: usize, dir: Direction) -> (res: Option<VictoryInfo>)
        requires
            self.wf(),
            r < self.size(),
            c < self.size(),
        ensures
            match res {
                Some(info) => self.wins_at(info.winner, r as int, c as int, dir)
                    && describes_chain(info, self.chain(), r as int, c as int, dir),
                None => forall|p: Player| !self.wins_at(p, r as int, c as int, dir),
            },
    {
        let first = self.cell(r, c);
        if first == CellState::Empty {
            proof {
                assert forall|p: Player| !self.wins_at(p, r as int, c as int, dir) by {
                    if self.wins_at(p, r as int, c as int, dir) {
                        assert(self.chain_cell_ok(p, r as int, c as int, dir, 0));
                    }
                }
            }
            return None;
        }

        let mut positions: Vec<(usize, usize)> = Vec::new();
        positions.push((r, c));
        let mut i: usize = 1;
        while i < self.chain_size
            invariant
                1 <= i <= self.chain(),
                positions@.len() == i,
                forall|j: int|
                    0 <= j < i ==> (#[trigger] positions@[j]).0 == chain_row(r as int, dir, j)
                        && positions@[j].1 == chain_col(c as int, dir, j),
                forall|j: int|
                    0 <= j < i ==> #[trigger] self.chain_cell_ok(player_of(first), r as int,
                        c as int, dir, j),
            decreases self.chain() - i,
        {
            proof {
                lemma_grid_bounds(self.size());
            }
            let new_r: usize;
            let new_c: usize;
            let mut col_underflow = false;
            match dir {
                Direction::Horizontal => {
                    new_r = r;
                    new_c = c + i;
                },
                Direction::Vertical => {
                    new_r = r + i;
                    new_c = c;
                },
                Direction::DiagonalDownRight => {
                    new_r = r + i;
                    new_c = c + i;
                },
                Direction::DiagonalUpRight => {
                    new_r = r + i;
                    if i <= c {
                        new_c = c - i;
                    } else {
                        new_c = 0;
                        col_underflow = true;
                    }
                },
            }
            let step_ok = !col_underflow && self.in_bounds(new_r, new_c);
            if !step_ok {
                proof {
                    assert forall|p: Player| !self.wins_at(p, r as int, c as int, dir) by {
                        if self.wins_at(p, r as int, c as int, dir) {
                            assert(self.chain_cell_ok(p, r as int, c as int, dir, i as int));
                        }
                    }
                }
                return None;
            }
            let s = self.cell(new_r, new_c);
            if s != first {
                proof {
                    assert forall|p: Player| !self.wins_at(p, r as int, c as int, dir) by {
                        if self.wins_at(p, r as int, c as int, dir) {
                            assert(self.chain_cell_ok(p, r as int, c as int, dir, 0));
                            assert(self.chain_cell_ok(p, r as int, c as int, dir, i as int));
                            assert(self.chain_cell_ok(player_of(first), r as int, c as int, dir,
                                0));
                        }
                    }
                }
                return None;
            }
            positions.push((new_r, new_c));
            i += 1;
        }

        let winner = match first {
            CellState::Cross => Player::Cross,
            CellState::Circle => Player::Circle,
            CellState::Empty => vstd::pervasive::unreached(),
        };
        Some(VictoryInfo { winner, positions })
    }

    /// Scans one direction over all mask-eligible cells in row-major order and
    /// returns the first complete chain found.
    #[verifier::loop_isolation(false)]
    fn scan_direction(&self, dir: Direction) -> (res: Option<VictoryInfo>)
        requires
            self.wf(),
        ensures
            match res {
                Some(info) => dir_hit(*self, dir, info),
                None => self.no_win_in_dir(dir),
            },
    {
        let total = self.board_size * self.board_size;
        let mut idx: usize = 0;
        while idx < total
            invariant
                idx <= total,
                total == self.size() * self.size(),
                forall|r2: int, c2: int|
                    0 <= r2 < self.size() && 0 <= c2 < self.size() && row_major(self.size(), r2,
                        c2) < idx ==> !(#[trigger] self.win_starts_at(dir, r2, c2)),
            decreases total - idx,
        {
            let (r, c) = self.idx_to_pos(idx);
            let eligible = self.mask_at(dir, r, c);
            if eligible {
                if let Some(info) = self.check_chain(r, c, dir) {
                    proof {
                        assert(info.positions@[0].0 == chain_row(r as int, dir, 0));
                        assert(info.positions@[0].1 == chain_col(c as int, dir, 0));
                        assert forall|r2: int, c2: int|
                            0 <= r2 < self.size() && 0 <= c2 < self.size() && (r2 < r || (r2 == r
                                && c2 < c)) implies !(self.win_starts_at(dir, r2, c2)) by {
                            lemma_row_major_order(self.size(), r2, c2, r as int, c as int);
                        }
                    }
                    return Some(info);
                }
                proof {
                    assert(!self.win_starts_at(dir, r as int, c as int));
                }
            } else {
                proof {
                    assert forall|p: Player| !self.wins_at(p, r as int, c as int, dir) by {
                        if self.wins_at(p, r as int, c as int, dir) {
                            assert(self.chain_cell_ok(p, r as int, c as int, dir, self.chain()
                                - 1));
                        }
                    }
                    assert(!self.win_starts_at(dir, r as int, c as int));
                }
            }
            proof {
                assert forall|r2: int, c2: int|
                    0 <= r2 < self.size() && 0 <= c2 < self.size() && row_major(self.size(), r2,
                        c2) == idx implies r2 == r && c2 == c by {
                    lemma_row_major_injective(self.size(), r2, c2, r as int, c as int);
                }
            }
            idx += 1;
        }
        proof {
            assert forall|r2: int, c2: int|
                0 <= r2 < self.size() && 0 <= c2 < self.size() implies !(self.win_starts_at(dir,
                r2, c2)) by {
                lemma_row_major_bound(self.size(), r2, c2);
            }
        }
        None
    }

    /// Scans the four directions in the fixed order — horizontal, vertical,
    /// diagonal-down-right, diagonal-up-right — visiting each direction's
    /// eligible cells in row-major order, and returns the first complete chain
    /// found; `None` exactly when the board holds no complete chain.
    pub fn is_victory_state(&self) -> (res: Option<VictoryInfo>)
        requires
            self.wf(),
        ensures
            res is Some <==> self.has_victory(),
            match res {
                Some(info) => victory_result(*self, info),
                None => !self.has_victory(),
            },
    {
        if let Some(info) = self.scan_direction(Direction::Horizontal) {
            proof {
                lemma_some_result(*self, Direction::Horizontal, info);
            }
            return Some(info);
        }
        if let Some(info) = self.scan_direction(Direction::Vertical) {
            proof {
                lemma_some_result(*self, Direction::Vertical, info);
            }
            return Some(info);
        }
        if let Some(info) = self.scan_direction(Direction::DiagonalDownRight) {
            proof {
                lemma_some_result(*self, Direction::DiagonalDownRight, info);
            }
            return Some(info);
        }
        if let Some(info) = self.scan_direction(Direction::DiagonalUpRight) {
            proof {
                lemma_some_result(*self, Direction::DiagonalUpRight, info);
            }
            return Some(info);
        }
        proof {
            if self.has_victory() {
                let (p, r, c, d) = choose|p: Player, r: int, c: int, d: Direction|
                    self.wins_at(p, r, c, d);
                assert(self.chain_cell_ok(p, r, c, d, 0));
                assert(self.win_starts_at(d, chain_row(r, d, 0), chain_col(c, d, 0)));
            }
        }
        None
    }
}

impl Default for Board {
    /// The standard 3×3 game with a 3-cell winning chain; always constructs.
    fn default() -> (b: Board)
        ensures
            b.wf(),
            b.size() == 3,
            b.chain() == 3,
            b.turn() == Player::Cross,
            b.grid().len() == 9,
            forall|i: int| 0 <= i < b.grid().len() ==> b.grid()[i] == CellState::Empty,
    {
        Board::new_unchecked(3, 3)
    }
}

/// A hit reported for direction `d` — together with the knowledge that every
/// direction of lower rank is clear — is the scan's overall result, and
/// witnesses that the board has a victory.
proof fn lemma_some_result(b: Board, d: Direction, info: VictoryInfo)
    requires
        dir_hit(b, d, info),
        forall|d2: Direction| d2.rank() < d.rank() ==> #[trigger] b.no_win_in_dir(d2),
    ensures
        victory_result(b, info),
        b.has_victory(),
{
    assert(b.wins_at(info.winner, info.positions@[0].0 as int, info.positions@[0].1 as int, d));
}

} // verus!
