//! What holds of every move.
//!
//! The functions of this module are proofs. Each states, for every grid and
//! every request that meets its conditions, what the rules in
//! [`crate::rules`] make of the request.

use vstd::prelude::*;
use crate::cord::lemma_line_ends;
use crate::cord::lemma_scale_next;
use crate::cord::lemma_unit_steps;
use crate::cord::Hex;
use crate::grid::lemma_line_on_board;
use crate::grid::Grid;
use crate::rules::is_formation;
use crate::rules::lead;
use crate::rules::lemma_index_on;
use crate::rules::lemma_lead_is;
use crate::rules::lemma_on_line;
use crate::rules::lemma_run_at;
use crate::rules::on_line;
use crate::rules::index_on;
use crate::stone::BoardError;
use crate::stone::Player;
use crate::stone::Stone;

verus! {

/// A move leaves the board its side and its cells: the grid after an
/// accepted move is well formed, with the side it had.
pub proof fn law_board_kept(g: Grid, player: Player, from: Hex, to: Hex, dir: Hex)
    requires
        g.wf(),
    ensures
        g.pushed(player, from, to, dir) matches Ok(after) ==> after.wf() && after.side == g.side,
{
    if let Ok(after) = g.pushed(player, from, to, dir) {
        assert(after.cells.dom() =~= g.cells.dom());
    }
}

/// A single stone that is moved onto a blank cell of the board is relocated:
/// the cell it reaches holds the player's stone, the cell it left is blank,
/// and every other cell is as it was. Moved onto a cell of the board that
/// holds a stone, it is refused with `InvalidMove`.
pub proof fn law_single_move(g: Grid, player: Player, from: Hex, dir: Hex)
    requires
        g.wf(),
        g.contains(from),
        dir.is_unit(),
        g.contains(from.plus(dir)),
    ensures
        match g.pushed(player, from, from, dir) {
            Ok(after) => {
                &&& g.at(from.plus(dir)) == Stone::Blank
                &&& after == g.put(from.plus(dir), player.stone()).put(from, Stone::Blank)
                &&& after.at(from.plus(dir)) == player.stone()
                &&& after.at(from) == Stone::Blank
                &&& forall|c: Hex|
                    g.contains(c) && Grid::key(c) != Grid::key(from) && Grid::key(c) != Grid::key(
                        from.plus(dir),
                    ) ==> #[trigger] after.at(c) == g.at(c)
            },
            Err(e) => g.at(from.plus(dir)) != Stone::Blank && e == BoardError::InvalidMove,
        },
{
    lemma_unit_steps(dir);
}

/// A run of `mine` stones of the player followed by `theirs` stones of the
/// other kind, both at least one, is pushed along its line exactly if
/// `mine > theirs`, and is refused with `InvalidMove` if not. When it is
/// pushed, the cell at the rear of the run is blank, every cell of the board
/// one step ahead of a stone of the run holds that stone, and every cell off
/// the line is as it was: a stone with no cell of the board ahead of it is
/// on the board no more.
///
/// The run starts at `origin`, the end of the selection that `dir` leads
/// away from.
pub proof fn law_majority(
    g: Grid,
    player: Player,
    from: Hex,
    to: Hex,
    dir: Hex,
    origin: Hex,
    mine: nat,
    theirs: nat,
)
    requires
        g.wf(),
        g.contains(from),
        g.contains(to),
        from != to,
        from.is_linear_to(to),
        from.distance(to) <= 2,
        dir.is_unit(),
        (from.dir(to) == dir && origin == from) || (from.dir(to) == dir.neg() && origin == to),
        mine >= 1,
        theirs >= 1,
        g.run(origin, dir).len() == mine + theirs,
        forall|i: int| 0 <= i < mine ==> g.run(origin, dir)[i] == player.stone(),
        forall|i: int| mine <= i < mine + theirs ==> g.run(origin, dir)[i] != player.stone(),
    ensures
        g.pushed(player, from, to, dir) is Ok <==> mine > theirs,
        g.pushed(player, from, to, dir) is Err ==> g.pushed(player, from, to, dir) == Err::<
            Grid,
            BoardError,
        >(BoardError::InvalidMove),
        g.pushed(player, from, to, dir) matches Ok(after) ==> {
            &&& after.at(origin) == Stone::Blank
            &&& forall|i: int|
                0 <= i < mine + theirs && g.contains(origin.plus(dir.scale(i + 1)))
                    ==> #[trigger] after.at(origin.plus(dir.scale(i + 1))) == g.run(origin, dir)[i]
            &&& forall|q: (int, int)|
                g.cells.dom().contains(q) && !on_line(origin, dir, 0, (mine + theirs) as int, q)
                    ==> #[trigger] after.cells[q] == g.cells[q]
        },
{
    let stones = g.run(origin, dir);
    let n = (mine + theirs) as int;
    lemma_unit_steps(dir);
    lemma_lead_is(stones, player.stone(), mine);
    assert(is_formation(stones, player.stone()));
    assert(g.pushed(player, from, to, dir) == g.pushed_forward(player, origin, dir));
    if mine > theirs {
        let after = g.shifted(origin, dir, n);
        assert(g.pushed(player, from, to, dir) == Ok::<Grid, BoardError>(after));
        lemma_shifted(g, origin, dir, n);
        assert forall|i: int|
            0 <= i < mine + theirs && g.contains(
                origin.plus(dir.scale(i + 1)),
            ) implies #[trigger] after.at(origin.plus(dir.scale(i + 1))) == stones[i] by {
            lemma_run_at(g, origin, dir, i);
        }
    }
}

/// What the grid holds after `n` stones from `origin` on have moved one step
/// along `dir`.
pub proof fn lemma_shifted(g: Grid, origin: Hex, dir: Hex, n: int)
    requires
        g.wf(),
        dir.is_unit(),
        n >= 0,
        g.contains(origin),
    ensures
        g.shifted(origin, dir, n).at(origin) == Stone::Blank,
        forall|i: int|
            0 <= i < n && g.contains(origin.plus(dir.scale(i + 1))) ==> #[trigger] g.shifted(
                origin,
                dir,
                n,
            ).at(origin.plus(dir.scale(i + 1))) == g.at(origin.plus(dir.scale(i))),
        forall|q: (int, int)|
            g.cells.dom().contains(q) && !on_line(origin, dir, 0, n, q) ==> #[trigger] g.shifted(
                origin,
                dir,
                n,
            ).cells[q] == g.cells[q],
{
    let after = g.shifted(origin, dir, n);
    lemma_scale_next(dir, 0);
    lemma_index_on(origin, dir, 0);
    assert(origin.plus(dir.scale(0)) == origin);
    assert forall|i: int|
        0 <= i < n && g.contains(origin.plus(dir.scale(i + 1))) implies #[trigger] after.at(
        origin.plus(dir.scale(i + 1)),
    ) == g.at(origin.plus(dir.scale(i))) by {
        lemma_index_on(origin, dir, i + 1);
        lemma_scale_next(dir, i + 1);
        assert(origin.plus(dir.scale(i + 1)).minus(dir) == origin.plus(dir.scale(i)));
    }
    assert forall|q: (int, int)|
        g.cells.dom().contains(q) && !on_line(origin, dir, 0, n, q) implies #[trigger] after.cells[q]
        == g.cells[q] by {
        assert(!on_line(origin, dir, 1, n, q));
        assert(on_line(origin, dir, 0, n, Grid::key(origin)));
    }
}

/// A line of one to three stones of the player is stepped aside exactly if
/// every cell of the board one step along `dir` from a stone of the line is
/// blank, and is refused with `InvalidMove` if not. When it is stepped aside,
/// every cell of the line is blank, every cell of the board one step along
/// `dir` from it holds the player's stone, and every other cell is as it was.
pub proof fn law_side_step(g: Grid, player: Player, from: Hex, to: Hex, dir: Hex)
    requires
        g.wf(),
        g.contains(from),
        g.contains(to),
        from.is_linear_to(to),
        from.distance(to) <= 2,
        dir.is_unit(),
        from.dir(to) != dir,
        from.dir(to) != dir.neg(),
        forall|i: int|
            0 <= i <= from.distance(to) ==> g.at(#[trigger] from.plus(from.dir(to).scale(i)))
                == player.stone(),
    ensures
        g.pushed(player, from, to, dir) is Ok <==> forall|i: int|
            0 <= i <= from.distance(to) ==> !g.occupied(
                #[trigger] from.plus(from.dir(to).scale(i)).plus(dir),
            ),
        g.pushed(player, from, to, dir) is Err ==> g.pushed(player, from, to, dir) == Err::<
            Grid,
            BoardError,
        >(BoardError::InvalidMove),
        g.pushed(player, from, to, dir) matches Ok(after) ==> {
            &&& forall|i: int|
                0 <= i <= from.distance(to) ==> after.at(
                    #[trigger] from.plus(from.dir(to).scale(i)),
                ) == Stone::Blank
            &&& forall|i: int|
                0 <= i <= from.distance(to) && g.contains(
                    from.plus(from.dir(to).scale(i)).plus(dir),
                ) ==> after.at(#[trigger] from.plus(from.dir(to).scale(i)).plus(dir))
                    == player.stone()
            &&& forall|q: (int, int)|
                g.cells.dom().contains(q) && !on_line(from, from.dir(to), 0, from.distance(to) as int, q)
                    && !on_line(from.plus(dir), from.dir(to), 0, from.distance(to) as int, q)
                    ==> #[trigger] after.cells[q] == g.cells[q]
        },
{
    let axis = from.dir(to);
    let d = from.distance(to) as int;
    let mine = player.stone();
    let first = from.plus(dir);
    lemma_line_ends(from, to);
    lemma_scale_next(axis, 0);
    assert(from.plus(axis.scale(0)) == from);
    assert(g.pushed(player, from, to, dir) == if from == to {
        g.moved_one(player, from, dir)
    } else {
        g.pushed_sideways(player, from, to, dir)
    });
    let free = forall|i: int|
        0 <= i <= d ==> !g.occupied(#[trigger] from.plus(axis.scale(i)).plus(dir));
    let all_movable = forall|i: int|
        0 <= i <= d ==> #[trigger] g.movable(mine, from.plus(axis.scale(i)), dir);
    if free {
        assert forall|i: int| 0 <= i <= d implies #[trigger] g.movable(
            mine,
            from.plus(axis.scale(i)),
            dir,
        ) by {
            assert(!g.occupied(from.plus(axis.scale(i)).plus(dir)));
            assert(g.at(from.plus(axis.scale(i))) == mine);
        }
    }
    if all_movable {
        assert forall|i: int| 0 <= i <= d implies !g.occupied(
            #[trigger] from.plus(axis.scale(i)).plus(dir),
        ) by {
            assert(g.movable(mine, from.plus(axis.scale(i)), dir));
        }
    }
    assert(free <==> all_movable);
    if from == to {
        assert(g.at(from) == mine);
        assert(free <==> !g.occupied(from.plus(dir))) by {
            if !g.occupied(from.plus(dir)) {
                assert forall|i: int| 0 <= i <= d implies !g.occupied(
                    #[trigger] from.plus(axis.scale(i)).plus(dir),
                ) by {
                    assert(from.plus(axis.scale(i)) == from);
                }
            } else {
                assert(g.occupied(from.plus(axis.scale(0)).plus(dir)));
            }
        }
        lemma_unit_steps(dir);
    }
    if let Ok(after) = g.pushed(player, from, to, dir) {
        assert(all_movable);
        lemma_set_aside(g, mine, from, to, dir);
        if from == to {
            let moved = g.set_aside(mine, from, axis, dir, 1);
            lemma_index_on(from, axis, 0);
            lemma_index_on(first, axis, 0);
            assert(first.plus(axis.scale(0)) == first);
            assert(after.cells =~= moved.cells) by {
                reveal(index_on);
            }
        }
        assert(after == g.set_aside(mine, from, axis, dir, d + 1));
    }
}

/// What the grid holds after the stones of a line have stepped aside.
pub proof fn lemma_set_aside(g: Grid, mine: Stone, from: Hex, to: Hex, dir: Hex)
    requires
        g.wf(),
        mine != Stone::Blank,
        g.contains(from),
        g.contains(to),
        from.is_linear_to(to),
        forall|i: int|
            0 <= i <= from.distance(to) ==> #[trigger] g.movable(
                mine,
                from.plus(from.dir(to).scale(i)),
                dir,
            ),
    ensures
        ({
            let axis = from.dir(to);
            let d = from.distance(to) as int;
            let after = g.set_aside(mine, from, axis, dir, d + 1);
            &&& forall|i: int|
                0 <= i <= d ==> after.at(#[trigger] from.plus(axis.scale(i))) == Stone::Blank
            &&& forall|i: int|
                0 <= i <= d && g.contains(from.plus(axis.scale(i)).plus(dir)) ==> after.at(
                    #[trigger] from.plus(axis.scale(i)).plus(dir),
                ) == mine
            &&& forall|q: (int, int)|
                g.cells.dom().contains(q) && !on_line(from, axis, 0, d, q) && !on_line(
                    from.plus(dir),
                    axis,
                    0,
                    d,
                    q,
                ) ==> #[trigger] after.cells[q] == g.cells[q]
        }),
{
    let axis = from.dir(to);
    let d = from.distance(to) as int;
    let first = from.plus(dir);
    let after = g.set_aside(mine, from, axis, dir, d + 1);
    lemma_line_ends(from, to);
    assert forall|i: int| 0 <= i <= d implies after.at(#[trigger] from.plus(axis.scale(i)))
        == Stone::Blank by {
        lemma_on_line(from, axis, 0, d, i);
        lemma_line_on_board(g, from, to, i);
    }
    assert forall|i: int|
        0 <= i <= d && g.contains(from.plus(axis.scale(i)).plus(dir)) implies after.at(
        #[trigger] from.plus(axis.scale(i)).plus(dir),
    ) == mine by {
        let t = from.plus(axis.scale(i)).plus(dir);
        let q = Grid::key(t);
        assert(t == first.plus(axis.scale(i)));
        lemma_on_line(first, axis, 0, d, i);
        lemma_index_on(first, axis, i);
        assert(g.movable(mine, from.plus(axis.scale(i)), dir));
        if on_line(from, axis, 0, d, q) {
            let j = index_on(from, axis, q);
            assert(g.movable(mine, from.plus(axis.scale(j)), dir));
        }
    }
}

/// Two ends more than two steps apart are refused with `InvalidCord`,
/// whatever single step `dir` is; so are they, whatever `dir` is, where one
/// of them is no cell of the board.
///
/// Where both ends are cells of the board the direction is looked at first,
/// and one that is no single step is refused with `InvalidVec`.
pub proof fn law_selection_length(g: Grid, player: Player, from: Hex, to: Hex, dir: Hex)
    requires
        from.distance(to) > 2,
        dir.is_unit() || !g.contains(from) || !g.contains(to),
    ensures
        g.pushed(player, from, to, dir) == Err::<Grid, BoardError>(BoardError::InvalidCord),
{
}

} // verus!
