//! The rules of a move, stated over the grid.
//!
//! Each way of moving has a function that gives, for a grid and a request,
//! either the grid after the move or the reason why the move is refused.

use vstd::prelude::*;
use crate::cord::lemma_line_ends;
use crate::cord::lemma_scale_next;
use crate::cord::lemma_unit_steps;
use crate::cord::Hex;
use crate::grid::lemma_line_on_board;
use crate::grid::Grid;
use crate::stone::BoardError;
use crate::stone::Player;
use crate::stone::Stone;

verus! {

/// The number of stones equal to `mine` at the front of `stones`.
pub open spec fn lead(stones: Seq<Stone>, mine: Stone) -> nat
    decreases stones.len(),
{
    if stones.len() > 0 && stones[0] == mine {
        1 + lead(stones.drop_first(), mine)
    } else {
        0
    }
}

/// `stones` begins with a stone equal to `mine`, and no such stone comes
/// after the first stone that differs from `mine`.
pub open spec fn is_formation(stones: Seq<Stone>, mine: Stone) -> bool {
    &&& stones.len() > 0
    &&& stones[0] == mine
    &&& forall|i: int| lead(stones, mine) <= i < stones.len() ==> stones[i] != mine
}

/// The number of steps of `dir` that lead from `origin` to the cell kept under
/// `key`, for a single step `dir` and a cell on the line through `origin`.
#[verifier::opaque]
pub open spec fn index_on(origin: Hex, dir: Hex, key: (int, int)) -> int {
    if dir.x != 0 {
        (key.0 - origin.x) * dir.x
    } else {
        (key.1 - origin.y) * dir.y
    }
}

/// `key` is where one of the cells `origin + j * dir`, for `lo <= j <= hi`,
/// keeps its stone.
pub open spec fn on_line(origin: Hex, dir: Hex, lo: int, hi: int, key: (int, int)) -> bool {
    let j = index_on(origin, dir, key);
    lo <= j <= hi && Grid::key(origin.plus(dir.scale(j))) == key
}

impl Grid {
    /// The outcome of moving the stone of `from` by one step: refused where
    /// the cell it would reach is on the board and holds a stone. Otherwise
    /// that cell, if it is on the board, receives the player's stone, and
    /// `from` becomes blank.
    pub open spec fn moved_one(self, player: Player, from: Hex, dir: Hex) -> Result<
        Grid,
        BoardError,
    > {
        let dest = from.plus(dir);
        if self.occupied(dest) {
            Err(BoardError::InvalidMove)
        } else if self.contains(dest) {
            Ok(self.put(dest, player.stone()).put(from, Stone::Blank))
        } else {
            Ok(self.put(from, Stone::Blank))
        }
    }

    /// The grid in which every cell `origin + j * dir` with `lo < j <= hi`
    /// that is on the board holds what the cell one step before it held;
    /// the other cells are unchanged.
    pub open spec fn advanced(self, origin: Hex, dir: Hex, lo: int, hi: int) -> Grid {
        Grid {
            side: self.side,
            cells: Map::new(
                |k: (int, int)| self.cells.dom().contains(k),
                |k: (int, int)|
                    {
                        let c = origin.plus(dir.scale(index_on(origin, dir, k)));
                        if on_line(origin, dir, lo + 1, hi, k) && self.contains(c) {
                            self.at(c.minus(dir))
                        } else {
                            self.cells[k]
                        }
                    },
            ),
        }
    }

    /// The grid after the `n` stones that start at `origin` have each moved
    /// one step along `dir`: a stone whose next cell is off the board is
    /// gone, and `origin` is blank.
    pub open spec fn shifted(self, origin: Hex, dir: Hex, n: int) -> Grid {
        self.advanced(origin, dir, 0, n).put(origin, Stone::Blank)
    }

    /// The outcome of pushing the run of stones that starts at `origin` one
    /// step along `dir`: refused unless the run is a formation of the
    /// player's stones followed by fewer stones of the other kind.
    pub open spec fn pushed_forward(self, player: Player, origin: Hex, dir: Hex) -> Result<
        Grid,
        BoardError,
    > {
        let stones = self.run(origin, dir);
        let mine = lead(stones, player.stone());
        if is_formation(stones, player.stone()) && mine > stones.len() - mine {
            Ok(self.shifted(origin, dir, stones.len() as int))
        } else {
            Err(BoardError::InvalidMove)
        }
    }

    /// The cell `c` holds the stone `mine`, and the cell one step along
    /// `dir` from it is blank or off the board.
    pub open spec fn movable(self, mine: Stone, c: Hex, dir: Hex) -> bool {
        self.at(c) == mine && !self.occupied(c.plus(dir))
    }

    /// The grid after the first `n` cells of the line that starts at `from`
    /// and goes by steps of `axis` have each given their stone `mine` to the
    /// cell one step along `dir`: the cells of the line are blank, and those
    /// next to them that are on the board hold `mine`.
    pub open spec fn set_aside(self, mine: Stone, from: Hex, axis: Hex, dir: Hex, n: int) -> Grid {
        Grid {
            side: self.side,
            cells: Map::new(
                |k: (int, int)| self.cells.dom().contains(k),
                |k: (int, int)|
                    {
                        let first = from.plus(dir);
                        let c = first.plus(axis.scale(index_on(first, axis, k)));
                        if on_line(from, axis, 0, n - 1, k) {
                            Stone::Blank
                        } else if on_line(first, axis, 0, n - 1, k) && self.contains(c) {
                            mine
                        } else {
                            self.cells[k]
                        }
                    },
            ),
        }
    }

    /// The outcome of stepping the stones from `from` to `to` aside by
    /// `dir`: refused unless every cell of the line holds the player's stone
    /// and has a blank cell, or none, one step along `dir`.
    pub open spec fn pushed_sideways(self, player: Player, from: Hex, to: Hex, dir: Hex) -> Result<
        Grid,
        BoardError,
    > {
        if forall|i: int|
            0 <= i <= from.distance(to) ==> #[trigger] self.movable(
                player.stone(),
                from.plus(from.dir(to).scale(i)),
                dir,
            ) {
            Ok(self.set_aside(player.stone(), from, from.dir(to), dir, from.distance(to) as int + 1))
        } else {
            Err(BoardError::InvalidMove)
        }
    }

    /// The outcome of a request to move.
    ///
    /// The two ends must be cells of the board and `dir` a single step.
    /// With one cell selected the stone moves alone. Otherwise the ends
    /// must lie on a line, at most two steps apart; the stones are pushed
    /// forward from the rear end where `dir` runs along that line, and
    /// stepped aside where it does not.
    pub open spec fn pushed(self, player: Player, from: Hex, to: Hex, dir: Hex) -> Result<
        Grid,
        BoardError,
    > {
        if !self.contains(from) || !self.contains(to) {
            Err(BoardError::InvalidCord)
        } else if !dir.is_unit() {
            Err(BoardError::InvalidVec)
        } else if from == to {
            self.moved_one(player, from, dir)
        } else if !from.is_linear_to(to) || from.distance(to) > 2 {
            Err(BoardError::InvalidCord)
        } else if from.dir(to) == dir {
            self.pushed_forward(player, from, dir)
        } else if from.dir(to) == dir.neg() {
            self.pushed_forward(player, to, dir)
        } else {
            self.pushed_sideways(player, from, to, dir)
        }
    }
}

/// The front of `stones` has exactly `n` stones equal to `mine`, where the
/// first `n` are and the one after them is not.
pub proof fn lemma_lead_is(stones: Seq<Stone>, mine: Stone, n: nat)
    requires
        n <= stones.len(),
        forall|i: int| 0 <= i < n ==> stones[i] == mine,
        n == stones.len() || stones[n as int] != mine,
    ensures
        lead(stones, mine) == n,
    decreases n,
{
    if n > 0 {
        lemma_lead_is(stones.drop_first(), mine, (n - 1) as nat);
    }
}

/// The cell kept under the key of `origin + j * dir` lies `j` steps from
/// `origin`.
pub proof fn lemma_index_on(origin: Hex, dir: Hex, j: int)
    requires
        dir.is_unit() || (dir.is_zero() && j == 0),
    ensures
        index_on(origin, dir, Grid::key(origin.plus(dir.scale(j)))) == j,
{
    reveal(index_on);
    lemma_unit_steps(dir);
    if dir.x != 0 {
        assert((dir.x * j) * dir.x == j) by (nonlinear_arith)
            requires
                dir.x == 1 || dir.x == -1,
        ;
    } else if dir.y != 0 {
        assert((dir.y * j) * dir.y == j) by (nonlinear_arith)
            requires
                dir.y == 1 || dir.y == -1,
        ;
    }
}

/// A key lies on the cells `lo..=hi` of a line exactly if it is the key of
/// one of them.
pub proof fn lemma_on_line(origin: Hex, dir: Hex, lo: int, hi: int, j: int)
    requires
        dir.is_unit() || (dir.is_zero() && j == 0),
    ensures
        on_line(origin, dir, lo, hi, Grid::key(origin.plus(dir.scale(j)))) <==> lo <= j <= hi,
{
    lemma_index_on(origin, dir, j);
}

/// A run is no longer than the way to the edge of the board.
pub proof fn lemma_run_len(g: Grid, p: Hex, dir: Hex)
    requires
        g.wf(),
        !dir.is_zero() || !g.occupied(p),
    ensures
        g.run(p, dir).len() <= g.room(p, dir),
        g.room(p, dir) <= 2 * g.side - 1 || !g.contains(p),
    decreases g.room(p, dir),
{
    if g.occupied(p) {
        lemma_run_len(g, p.plus(dir), dir);
    }
}

/// The stone at place `t` of a run is that of the cell `t` steps from its
/// start, and the cell after the last one is blank or off the board.
pub proof fn lemma_run_at(g: Grid, p: Hex, dir: Hex, t: int)
    requires
        !dir.is_zero() || !g.occupied(p),
        0 <= t <= g.run(p, dir).len(),
    ensures
        t < g.run(p, dir).len() ==> g.occupied(p.plus(dir.scale(t))) && g.run(p, dir)[t] == g.at(
            p.plus(dir.scale(t)),
        ),
        t == g.run(p, dir).len() ==> !g.occupied(p.plus(dir.scale(t))),
    decreases t,
{
    lemma_scale_next(dir, 0);
    if t > 0 {
        lemma_run_at(g, p.plus(dir), dir, t - 1);
        lemma_scale_next(dir, t - 1);
        assert(p.plus(dir).plus(dir.scale(t - 1)) == p.plus(dir.scale(t)));
    }
}

/// Writing to cell `j` of the line what cell `j - 1` holds extends the part
/// of the line that has advanced from the cells above `j` to the cells from
/// `j` on; leaving it as it is does so where that cell is off the board.
pub proof fn lemma_advance_one(g: Grid, origin: Hex, dir: Hex, j: int, n: int)
    requires
        g.wf(),
        dir.is_unit(),
        1 <= j <= n,
        g.contains(origin.plus(dir.scale(j - 1))),
    ensures
        ({
            let dst = origin.plus(dir.scale(j));
            let src = origin.plus(dir.scale(j - 1));
            let cur = g.advanced(origin, dir, j, n);
            &&& cur.at(src) == g.at(src)
            &&& g.contains(dst) ==> cur.put(dst, g.at(src)) == g.advanced(origin, dir, j - 1, n)
            &&& !g.contains(dst) ==> cur == g.advanced(origin, dir, j - 1, n)
        }),
{
    let dst = origin.plus(dir.scale(j));
    let src = origin.plus(dir.scale(j - 1));
    let cur = g.advanced(origin, dir, j, n);
    let next = g.advanced(origin, dir, j - 1, n);
    lemma_scale_next(dir, j);
    lemma_index_on(origin, dir, j);
    lemma_index_on(origin, dir, j - 1);
    assert(dst.minus(dir) == src);
    if g.contains(dst) {
        assert(cur.put(dst, g.at(src)).cells =~= next.cells);
    } else {
        assert(cur.cells =~= next.cells);
    }
}

/// Moving the stone of cell `k` of a line aside extends the part of the
/// line that has been set aside from the first `k` cells to the first
/// `k + 1`.
pub proof fn lemma_set_aside_one(g: Grid, mine: Stone, from: Hex, to: Hex, dir: Hex, k: int)
    requires
        g.wf(),
        mine != Stone::Blank,
        g.contains(from),
        g.contains(to),
        from.is_linear_to(to),
        dir.is_unit(),
        0 <= k <= from.distance(to),
        forall|i: int|
            0 <= i <= from.distance(to) ==> #[trigger] g.movable(
                mine,
                from.plus(from.dir(to).scale(i)),
                dir,
            ),
    ensures
        ({
            let axis = from.dir(to);
            let c = from.plus(axis.scale(k));
            let cur = g.set_aside(mine, from, axis, dir, k);
            let next = g.set_aside(mine, from, axis, dir, k + 1);
            &&& g.contains(c.plus(dir)) ==> cur.put(c.plus(dir), mine).put(c, Stone::Blank) == next
            &&& !g.contains(c.plus(dir)) ==> cur.put(c, Stone::Blank) == next
        }),
{
    let axis = from.dir(to);
    let first = from.plus(dir);
    let c = from.plus(axis.scale(k));
    let t = c.plus(dir);
    let cur = g.set_aside(mine, from, axis, dir, k);
    let next = g.set_aside(mine, from, axis, dir, k + 1);
    assert(axis.is_unit() || (axis.is_zero() && k == 0)) by {
        lemma_line_ends(from, to);
    }
    lemma_index_on(from, axis, k);
    lemma_index_on(first, axis, k);
    assert(t == first.plus(axis.scale(k)));
    assert(g.contains(c)) by {
        lemma_line_on_board(g, from, to, k);
    }
    assert(g.movable(mine, c, dir));
    let after = if g.contains(t) {
        cur.put(t, mine).put(c, Stone::Blank)
    } else {
        cur.put(c, Stone::Blank)
    };
    assert forall|q: (int, int)| after.cells.dom().contains(q) implies after.cells[q]
        == next.cells[q] by {
        let j = index_on(from, axis, q);
        if on_line(from, axis, 0, k, q) {
            assert(g.movable(mine, from.plus(axis.scale(j)), dir));
        }
    }
    assert(after.cells =~= next.cells);
}

} // verus!
