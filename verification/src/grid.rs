//! The board as a mathematical value.
//!
//! A [`Grid`] is what a board holds, without its storage: the side of the
//! hexagon and the stone of every cell. The contracts of the board are stated
//! over it.

use vstd::prelude::*;
use crate::cord::lemma_line_inside;
use crate::cord::Hex;
use crate::stone::Stone;

verus! {

/// The side of a board and the stone of each of its cells.
///
/// A stone is kept under the first two components of its cell's coordinate;
/// the third is never stored.
pub struct Grid {
    pub side: int,
    pub cells: Map<(int, int), Stone>,
}

impl Grid {
    /// Where the stone of cell `c` is kept.
    pub open spec fn key(c: Hex) -> (int, int) {
        (c.x, c.y)
    }

    /// The keys of a board of the given side.
    pub open spec fn square(side: int) -> Set<(int, int)> {
        Set::new(|k: (int, int)| -side < k.0 < side && -side < k.1 < side)
    }

    /// The grid holds a stone for each key of its square and for nothing
    /// else.
    pub open spec fn wf(self) -> bool {
        &&& self.side >= 1
        &&& self.cells.dom() == Self::square(self.side)
    }

    /// The board of the given side with every cell blank.
    pub open spec fn blank(side: int) -> Grid {
        Grid {
            side,
            cells: Map::new(|k: (int, int)| Self::square(side).contains(k), |k: (int, int)| Stone::Blank),
        }
    }

    /// The cell `c` is on the board: each of its three components lies
    /// strictly between `-side` and `side`.
    pub open spec fn contains(self, c: Hex) -> bool {
        &&& -self.side < c.x < self.side
        &&& -self.side < c.y < self.side
        &&& -self.side < c.z < self.side
    }

    /// The stone of cell `c`, for a cell on the board.
    pub open spec fn at(self, c: Hex) -> Stone {
        self.cells[Self::key(c)]
    }

    /// The grid with the stone of cell `c` replaced by `s`.
    pub open spec fn put(self, c: Hex, s: Stone) -> Grid {
        Grid { side: self.side, cells: self.cells.insert(Self::key(c), s) }
    }

    /// The cell `c` is on the board and holds a stone.
    pub open spec fn occupied(self, c: Hex) -> bool {
        self.contains(c) && self.at(c) != Stone::Blank
    }

    /// A bound on the number of cells of the board that a walk from `p` by
    /// steps of `dir` can still visit, `p` included: the way to the edge
    /// along the first component in which `dir` moves.
    pub open spec fn room(self, p: Hex, dir: Hex) -> nat {
        if dir.x > 0 {
            to_edge(self.side - p.x)
        } else if dir.x < 0 {
            to_edge(self.side + p.x)
        } else if dir.y > 0 {
            to_edge(self.side - p.y)
        } else if dir.y < 0 {
            to_edge(self.side + p.y)
        } else if dir.z > 0 {
            to_edge(self.side - p.z)
        } else if dir.z < 0 {
            to_edge(self.side + p.z)
        } else {
            0
        }
    }

    /// The stones met on the walk from `p` by steps of `dir`, up to the first
    /// cell that is blank or off the board; the stone of `p` comes first.
    ///
    /// With the zero displacement for `dir` the walk stays on `p`, and the
    /// run is defined only where `p` holds no stone.
    pub open spec fn run(self, p: Hex, dir: Hex) -> Seq<Stone>
        decreases self.room(p, dir),
        when !dir.is_zero() || !self.occupied(p)
    {
        if self.occupied(p) {
            seq![self.at(p)] + self.run(p.plus(dir), dir)
        } else {
            Seq::empty()
        }
    }

    /// The stones of the cells from `from` to `to`, both included and in
    /// that order, for two cells on a line.
    pub open spec fn between(self, from: Hex, to: Hex) -> Seq<Stone> {
        Seq::new(from.line(to).len(), |i: int| self.at(from.line(to)[i]))
    }
}

/// A distance to the edge of the board, zero for a cell beyond it.
pub open spec fn to_edge(d: int) -> nat {
    if d > 0 {
        d as nat
    } else {
        0
    }
}

/// The cells of a line between two cells of the board are cells of the
/// board.
pub proof fn lemma_line_on_board(g: Grid, from: Hex, to: Hex, i: int)
    requires
        g.contains(from),
        g.contains(to),
        from.is_linear_to(to),
        0 <= i <= from.distance(to),
    ensures
        g.contains(from.plus(from.dir(to).scale(i))),
        g.contains(from.line(to)[i]),
{
    lemma_line_inside(from, to, i);
}

} // verus!
