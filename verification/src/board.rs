//! The board of a game and its storage.

use vstd::prelude::*;
use crate::cord::Cord;
use crate::cord::Hex;
use crate::grid::lemma_line_on_board;
use crate::grid::Grid;
use crate::stone::BoardError;
use crate::stone::Player;
use crate::stone::Stone;

verus! {

/// A request to move: who moves, the two ends of the selected stones, and the
/// step by which they are pushed.
pub struct Move {
    pub player: Player,
    pub from: Cord,
    pub to: Cord,
    pub dir: Cord,
}

/// A hexagonal board of stones.
///
/// The stones are kept row by row in a square of `2 * side - 1` rows and
/// columns; the first two components of a coordinate, shifted by `side - 1`,
/// pick the row and the column.
pub struct Board {
    payload: Vec<Vec<Stone>>,
    side: isize,
}

/// A game in progress.
pub struct Game {
    pub board: Board,
}

impl Game {
    /// A game played on `board`.
    pub fn new(board: Board) -> (game: Game)
        ensures
            game.board == board,
    {
        Game { board }
    }
}

impl Clone for Board {
    /// A board that holds the same stones.
    fn clone(&self) -> (copy: Board)
        ensures
            copy@ == self@,
    {
        proof {
            use_type_invariant(self);
        }
        let copy = Board { payload: self.raw(), side: self.side };
        assert(copy@.cells =~= self@.cells);
        copy
    }
}

impl View for Board {
    type V = Grid;

    closed spec fn view(&self) -> Grid {
        Grid {
            side: self.side as int,
            cells: Map::new(
                |k: (int, int)| Grid::square(self.side as int).contains(k),
                |k: (int, int)| self.payload[k.0 + self.side - 1][k.1 + self.side - 1],
            ),
        }
    }
}

/// Replaces one stone in a square of rows.
fn write_cell(rows: &mut Vec<Vec<Stone>>, i: usize, j: usize, s: Stone)
    requires
        i < old(rows).len(),
        j < old(rows)[i as int].len(),
    ensures
        final(rows).len() == old(rows).len(),
        forall|k: int| 0 <= k < old(rows).len() && k != i ==> final(rows)[k] == old(rows)[k],
        final(rows)[i as int]@ == old(rows)[i as int]@.update(j as int, s),
    no_unwind
{
    rows[i][j] = s;
}

impl Board {
    /// The square has `2 * side - 1` rows of that many stones.
    #[verifier::type_invariant]
    pub(crate) closed spec fn inv(self) -> bool {
        &&& self.side >= 1
        &&& 2 * self.side - 1 <= isize::MAX
        &&& self.payload.len() == 2 * self.side - 1
        &&& forall|i: int|
            0 <= i < self.payload.len() ==> (#[trigger] self.payload[i]).len() == 2 * self.side - 1
    }

    /// A board that keeps its invariant stands for a well-formed grid whose
    /// rows are no longer than a vector can be.
    pub(crate) proof fn lemma_view_wf(self)
        requires
            self.inv(),
        ensures
            self@.wf(),
            2 * self@.side - 1 <= isize::MAX,
    {
        assert(self@.cells.dom() =~= Grid::square(self@.side));
    }

    /// A board of the given side with every cell blank.
    ///
    /// The side is at least 1, and a row of `2 * side - 1` stones is no longer
    /// than a vector can be.
    pub fn new(side: usize) -> (board: Board)
        requires
            1 <= side,
            2 * side - 1 <= isize::MAX,
        ensures
            board@ == Grid::blank(side as int),
    {
        let board = Board {
            payload: vec![vec![Stone::Blank; side * 2 - 1]; side * 2 - 1],
            side: side as isize,
        };
        assert(board@.cells =~= Grid::blank(side as int).cells);
        board
    }

    /// The board used in trials: side 5, a black stone in the middle and a
    /// white stone one step from it.
    pub fn test_board() -> (board: Board)
        ensures
            board@ == Grid::blank(5).put(Hex { x: 0, y: 0, z: 0 }, Stone::Black).put(
                Hex { x: 1, y: 0, z: -1 },
                Stone::White,
            ),
    {
        let mut board = Board::new(5);
        let _ = board.set(Cord(0, 0, 0), Stone::Black);
        let _ = board.set(Cord(1, 0, -1), Stone::White);
        board
    }

    /// A copy of the stones, row by row: the stone of the cell whose first two
    /// components are `x` and `y` is at row `x + side - 1`, column
    /// `y + side - 1`.
    pub fn raw(&self) -> (rows: Vec<Vec<Stone>>)
        ensures
            self@.wf(),
            rows@.len() == 2 * self@.side - 1,
            forall|i: int| 0 <= i < rows@.len() ==> (#[trigger] rows@[i])@.len() == 2 * self@.side - 1,
            forall|i: int, j: int|
                0 <= i < 2 * self@.side - 1 && 0 <= j < 2 * self@.side - 1 ==> #[trigger] rows@[i]@[j]
                    == self@.cells[(i - (self@.side - 1), j - (self@.side - 1))],
    {
        proof {
            use_type_invariant(self);
            self.lemma_view_wf();
        }
        self.payload.clone()
    }

    /// Whether `cord` is a cell of the board.
    pub fn validate(&self, cord: Cord) -> (valid: bool)
        ensures
            valid == self@.contains(cord@),
            self@.wf(),
    {
        proof {
            use_type_invariant(self);
            self.lemma_view_wf();
        }
        let Cord(x, y, z) = cord;
        x > -self.side && x < self.side && y > -self.side && y < self.side && z > -self.side
            && z < self.side
    }

    /// The row and the column under which the stone of `cord` is kept.
    fn to_axial(&self, cord: Cord) -> (at: (usize, usize))
        requires
            self@.contains(cord@),
        ensures
            at.0 == cord@.x + self@.side - 1,
            at.1 == cord@.y + self@.side - 1,
            at.0 < 2 * self@.side - 1,
            at.1 < 2 * self@.side - 1,
    {
        proof {
            use_type_invariant(self);
        }
        ((cord.0 + self.side - 1) as usize, (cord.1 + self.side - 1) as usize)
    }

    /// The stone of cell `cord`, or `InvalidCord` where `cord` is no cell of
    /// the board.
    pub fn get(&self, cord: Cord) -> (r: Result<Stone, BoardError>)
        ensures
            self@.contains(cord@) ==> r == Ok::<Stone, BoardError>(self@.at(cord@)),
            !self@.contains(cord@) ==> r == Err::<Stone, BoardError>(BoardError::InvalidCord),
            self@.wf(),
    {
        proof {
            use_type_invariant(self);
        }
        if !self.validate(cord) {
            return Err(BoardError::InvalidCord);
        }
        let (i, j) = self.to_axial(cord);
        Ok(self.payload[i][j])
    }

    /// Puts `stone` on cell `cord`, or returns `InvalidCord` and changes
    /// nothing where `cord` is no cell of the board.
    pub fn set(&mut self, cord: Cord, stone: Stone) -> (r: Result<(), BoardError>)
        ensures
            old(self)@.contains(cord@) ==> r == Ok::<(), BoardError>(()) && final(self)@ == old(
                self,
            )@.put(cord@, stone),
            !old(self)@.contains(cord@) ==> r == Err::<(), BoardError>(BoardError::InvalidCord)
                && final(self)@ == old(self)@,
            final(self)@.wf(),
    {
        proof {
            use_type_invariant(&*self);
        }
        if !self.validate(cord) {
            return Err(BoardError::InvalidCord);
        }
        let (i, j) = self.to_axial(cord);
        write_cell(&mut self.payload, i, j, stone);
        assert(self@.cells =~= old(self)@.put(cord@, stone).cells);
        Ok(())
    }

    /// The stones met on the walk from `p` by steps of `dir`, up to the first
    /// cell that is blank or off the board; the stone of `p` comes first.
    ///
    /// A walk that never leaves an occupied cell does not end: `dir` is not
    /// the zero displacement, unless `p` holds no stone.
    pub fn get_until_blank(&self, p: Cord, dir: Cord) -> (r: Result<Vec<Stone>, BoardError>)
        requires
            !dir@.is_zero() || !self@.occupied(p@),
        ensures
            r is Ok,
            r.unwrap()@ == self@.run(p@, dir@),
            self@.wf(),
    {
        proof {
            use_type_invariant(self);
            self.lemma_view_wf();
        }
        let mut i: Cord = p;
        let mut out: Vec<Stone> = Vec::new();
        loop
            invariant_except_break
                !dir@.is_zero() || !self@.occupied(i@),
                out@ + self@.run(i@, dir@) == self@.run(p@, dir@),
            invariant
                self@.wf(),
                self@.side <= isize::MAX,
            ensures
                out@ == self@.run(p@, dir@),
            decreases self@.room(i@, dir@),
        {
            let ghost before = out@;
            match self.get(i) {
                Ok(s) => {
                    if s == Stone::Blank {
                        break ;
                    }
                    out.push(s);
                },
                Err(_) => {
                    break ;
                },
            }
            proof {
                assert(out@ + self@.run(i@.plus(dir@), dir@) == self@.run(p@, dir@)) by {
                    assert(before + (seq![self@.at(i@)] + self@.run(i@.plus(dir@), dir@))
                        =~= out@ + self@.run(i@.plus(dir@), dir@));
                }
            }
            match i.checked_add(dir) {
                Some(next) => {
                    i = next;
                },
                None => {
                    break ;
                },
            }
        }
        Ok(out)
    }

    /// The stones of the cells from `from` to `to`, both included and in
    /// that order; `InvalidCord` unless both are cells of the board and lie on
    /// a line.
    pub fn get_between(&self, from: Cord, to: Cord) -> (r: Result<Vec<Stone>, BoardError>)
        ensures
            self@.wf(),
            match r {
                Ok(stones) => {
                    &&& self@.contains(from@)
                    &&& self@.contains(to@)
                    &&& from@.is_linear_to(to@)
                    &&& stones@ == self@.between(from@, to@)
                },
                Err(e) => {
                    &&& !(self@.contains(from@) && self@.contains(to@) && from@.is_linear_to(to@))
                    &&& e == BoardError::InvalidCord
                },
            },
    {
        proof {
            use_type_invariant(self);
            self.lemma_view_wf();
        }
        if !self.validate(from) || !self.validate(to) {
            return Err(BoardError::InvalidCord);
        }
        if !from.is_linear_to(to) {
            return Err(BoardError::InvalidCord);
        }
        let cords: Vec<Cord> = from.linedraw(to);
        let mut out: Vec<Stone> = Vec::new();
        let mut k: usize = 0;
        while k < cords.len()
            invariant
                self@.contains(from@),
                self@.contains(to@),
                from@.is_linear_to(to@),
                cords@.len() == from@.distance(to@) + 1,
                forall|i: int|
                    0 <= i < cords@.len() ==> (#[trigger] cords@[i])@ == from@.line(to@)[i],
                k <= cords@.len(),
                out@.len() == k,
                forall|i: int| 0 <= i < k ==> out@[i] == self@.at(from@.line(to@)[i]),
            decreases cords@.len() - k,
        {
            proof {
                lemma_line_on_board(self@, from@, to@, k as int);
            }
            let s: Stone = self.get(cords[k]).unwrap();
            out.push(s);
            k = k + 1;
        }
        assert(out@ =~= self@.between(from@, to@));
        Ok(out)
    }
}

} // verus!
