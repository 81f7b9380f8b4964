//! Moves on the board.

use core::ops::Neg;
use vstd::prelude::*;
use crate::board::Board;
use crate::board::Move;
use crate::cord::lemma_line_ends;
use crate::cord::lemma_scale_next;
use crate::cord::lemma_scale_zero;
use crate::cord::lemma_unit_steps;
use crate::cord::Cord;
use crate::grid::lemma_line_on_board;
use crate::rules::is_formation;
use crate::rules::lead;
use crate::rules::lemma_advance_one;
use crate::rules::lemma_lead_is;
use crate::rules::lemma_run_at;
use crate::rules::lemma_run_len;
use crate::rules::lemma_set_aside_one;
use crate::stone::BoardError;
use crate::stone::Player;
use crate::stone::Stone;

verus! {

impl Board {
    /// Counts the stones of a run: those of the player at its front, and
    /// those that follow them. `InvalidMove` unless the run is a formation
    /// of the player's stones.
    pub fn nums_of_stones(player: Player, stones: Vec<Stone>) -> (r: Result<
        (usize, usize),
        BoardError,
    >)
        ensures
            match r {
                Ok(counts) => {
                    &&& is_formation(stones@, player.stone())
                    &&& counts.0 == lead(stones@, player.stone())
                    &&& counts.1 == stones@.len() - counts.0
                },
                Err(e) => !is_formation(stones@, player.stone()) && e == BoardError::InvalidMove,
            },
    {
        let mut opp_started: bool = false;
        let mut me: usize = 0;
        let mut opp: usize = 0;
        if stones.len() == 0 || stones[0] != player.stone() {
            return Err(BoardError::InvalidMove);
        }
        let mut k: usize = 0;
        while k < stones.len()
            invariant
                k <= stones@.len(),
                me + opp == k,
                forall|i: int| 0 <= i < me ==> stones@[i] == player.stone(),
                !opp_started ==> opp == 0,
                opp_started ==> me < k,
                forall|i: int| me <= i < k ==> stones@[i] != player.stone(),
            decreases stones@.len() - k,
        {
            if stones[k] == player.stone() {
                if opp_started {
                    proof {
                        lemma_lead_is(stones@, player.stone(), me as nat);
                    }
                    return Err(BoardError::InvalidMove);
                }
                me = me + 1;
            } else {
                opp_started = true;
                opp = opp + 1;
            }
            k = k + 1;
        }
        proof {
            lemma_lead_is(stones@, player.stone(), me as nat);
        }
        Ok((me, opp))
    }

    /// Pushes the run of stones that starts at `from` one step along the
    /// single step `dir`, or returns `InvalidMove` and changes nothing.
    ///
    /// The run is pushed where it is a formation of the player's stones
    /// followed by fewer stones of the other kind. The stones are moved from
    /// the far end of the run back to `from`, so that each is read before its
    /// cell is written.
    pub fn push_foward(&mut self, player: Player, from: Cord, dir: Cord) -> (r: Result<
        (),
        BoardError,
    >)
        requires
            dir@.is_unit(),
        ensures
            final(self)@.wf(),
            match old(self)@.pushed_forward(player, from@, dir@) {
                Ok(grid) => r is Ok && final(self)@ == grid,
                Err(e) => r == Err::<(), BoardError>(e) && final(self)@ == old(self)@,
            },
    {
        proof {
            use_type_invariant(&*self);
            self.lemma_view_wf();
            lemma_unit_steps(dir@);
        }
        let ghost g0 = self@;
        let stones: Vec<Stone> = self.get_until_blank(from, dir)?;
        let (me, opp) = Board::nums_of_stones(player, stones)?;
        if me <= opp {
            return Err(BoardError::InvalidMove);
        }
        proof {
            lemma_run_len(g0, from@, dir@);
            lemma_run_at(g0, from@, dir@, 0);
        }
        let n: usize = me + opp;
        proof {
            lemma_run_at(g0, from@, dir@, n - 1);
            lemma_scale_next(dir@, n - 1);
            assert(g0.advanced(from@, dir@, n as int, n as int).cells =~= g0.cells);
        }
        let mut i: Cord = from + dir * (n as isize);
        let ghost mut j: int = n as int;
        while i != from
            invariant
                dir@.is_unit(),
                g0.wf(),
                2 * g0.side - 1 <= isize::MAX,
                n == g0.run(from@, dir@).len(),
                0 <= j <= n,
                i@ == from@.plus(dir@.scale(j)),
                self@ == g0.advanced(from@, dir@, j, n as int),
            decreases j,
        {
            proof {
                lemma_unit_steps(dir@);
                lemma_scale_next(dir@, j);
                lemma_run_at(g0, from@, dir@, j - 1);
                lemma_advance_one(g0, from@, dir@, j, n as int);
            }
            let s: Stone = self.get(i - dir).unwrap();
            if self.validate(i) {
                self.set(i, s).unwrap();
            }
            i = i - dir;
            proof {
                j = j - 1;
            }
        }
        proof {
            lemma_scale_zero(dir@, j);
            lemma_run_at(g0, from@, dir@, 0);
        }
        self.set(from, Stone::Blank).unwrap();
        Ok(())
    }

    /// Steps the stones from `from` to `to` aside by the single step `dir`,
    /// or returns `InvalidMove` and changes nothing. The two ends are cells
    /// of the board and lie on a line.
    ///
    /// Every cell of the line is looked at before the first stone is moved.
    pub fn push_sideways(&mut self, player: Player, from: Cord, to: Cord, dir: Cord) -> (r: Result<
        (),
        BoardError,
    >)
        requires
            old(self)@.contains(from@),
            old(self)@.contains(to@),
            from@.is_linear_to(to@),
            dir@.is_unit(),
        ensures
            final(self)@.wf(),
            match old(self)@.pushed_sideways(player, from@, to@, dir@) {
                Ok(grid) => r is Ok && final(self)@ == grid,
                Err(e) => r == Err::<(), BoardError>(e) && final(self)@ == old(self)@,
            },
    {
        let ghost g0 = self@;
        let ghost axis = from@.dir(to@);
        let mine: Stone = player.stone();
        proof {
            use_type_invariant(&*self);
            self.lemma_view_wf();
            lemma_unit_steps(dir@);
            lemma_line_ends(from@, to@);
        }
        let cords: Vec<Cord> = from.linedraw(to);
        let mut k: usize = 0;
        while k < cords.len()
            invariant
                self@ == g0,
                g0.wf(),
                2 * g0.side - 1 <= isize::MAX,
                g0.contains(from@),
                g0.contains(to@),
                from@.is_linear_to(to@),
                dir@.is_unit(),
                mine == player.stone(),
                axis == from@.dir(to@),
                cords@.len() == from@.distance(to@) + 1,
                forall|i: int|
                    0 <= i < cords@.len() ==> (#[trigger] cords@[i])@ == from@.line(to@)[i],
                k <= cords@.len(),
                forall|i: int|
                    0 <= i < k ==> #[trigger] g0.movable(mine, from@.plus(axis.scale(i)), dir@),
            decreases cords@.len() - k,
        {
            let cord: Cord = cords[k];
            proof {
                lemma_unit_steps(dir@);
                lemma_line_on_board(g0, from@, to@, k as int);
                assert(cord@ == from@.plus(axis.scale(k as int)));
            }
            let s: Stone = self.get(cord)?;
            if s != mine {
                proof {
                    assert(!g0.movable(mine, from@.plus(axis.scale(k as int)), dir@));
                }
                return Err(BoardError::InvalidMove);
            }
            if self.validate(cord + dir) {
                let s: Stone = self.get(cord + dir)?;
                if s != Stone::Blank {
                    proof {
                        assert(!g0.movable(mine, from@.plus(axis.scale(k as int)), dir@));
                    }
                    return Err(BoardError::InvalidMove);
                }
            }
            k = k + 1;
        }
        assert(self@.cells =~= g0.set_aside(mine, from@, axis, dir@, 0).cells);
        let mut k: usize = 0;
        while k < cords.len()
            invariant
                g0.wf(),
                2 * g0.side - 1 <= isize::MAX,
                g0.contains(from@),
                g0.contains(to@),
                from@.is_linear_to(to@),
                dir@.is_unit(),
                mine == player.stone(),
                axis == from@.dir(to@),
                cords@.len() == from@.distance(to@) + 1,
                forall|i: int|
                    0 <= i < cords@.len() ==> (#[trigger] cords@[i])@ == from@.line(to@)[i],
                k <= cords@.len(),
                forall|i: int|
                    0 <= i <= from@.distance(to@) ==> #[trigger] g0.movable(
                        mine,
                        from@.plus(axis.scale(i)),
                        dir@,
                    ),
                self@ == g0.set_aside(mine, from@, axis, dir@, k as int),
            decreases cords@.len() - k,
        {
            let cord: Cord = cords[k];
            proof {
                lemma_unit_steps(dir@);
                lemma_line_on_board(g0, from@, to@, k as int);
                assert(cord@ == from@.plus(axis.scale(k as int)));
                assert(g0.movable(mine, from@.plus(axis.scale(k as int)), dir@));
                lemma_set_aside_one(g0, mine, from@, to@, dir@, k as int);
            }
            if self.validate(cord + dir) {
                self.set(cord + dir, mine).unwrap();
            }
            self.set(cord, Stone::Blank).unwrap();
            k = k + 1;
        }
        Ok(())
    }

    /// Moves the stone of the cell `from` of the board by the single step
    /// `dir`, or returns `InvalidMove` and changes nothing.
    ///
    /// Whose stone `from` holds is not looked at, and a stone that is moved
    /// off the board is gone.
    pub fn push_one(&mut self, player: Player, from: Cord, dir: Cord) -> (r: Result<
        (),
        BoardError,
    >)
        requires
            old(self)@.contains(from@),
            dir@.is_unit(),
        ensures
            final(self)@.wf(),
            match old(self)@.moved_one(player, from@, dir@) {
                Ok(grid) => r is Ok && final(self)@ == grid,
                Err(e) => r == Err::<(), BoardError>(e) && final(self)@ == old(self)@,
            },
    {
        proof {
            use_type_invariant(&*self);
            self.lemma_view_wf();
            lemma_unit_steps(dir@);
        }
        if self.validate(from + dir) {
            let s: Stone = self.get(from + dir)?;
            if s != Stone::Blank {
                return Err(BoardError::InvalidMove);
            }
        }
        if self.validate(from + dir) {
            self.set(from + dir, player.stone()).unwrap();
        }
        self.set(from, Stone::Blank).unwrap();
        Ok(())
    }

    /// Carries out the request of `player` to push the stones from `from` to
    /// `to` by `dir`, or refuses it and changes nothing.
    ///
    /// [`Grid::pushed`](crate::grid::Grid::pushed) says which requests are
    /// carried out, what they do to the board, and with which error the
    /// others are refused.
    pub fn push_internal(&mut self, player: Player, from: Cord, to: Cord, dir: Cord) -> (r: Result<
        (),
        BoardError,
    >)
        ensures
            final(self)@.wf(),
            match old(self)@.pushed(player, from@, to@, dir@) {
                Ok(grid) => r is Ok && final(self)@ == grid,
                Err(e) => r == Err::<(), BoardError>(e) && final(self)@ == old(self)@,
            },
    {
        if !self.validate(from) || !self.validate(to) {
            return Err(BoardError::InvalidCord);
        }
        if !dir.is_linear_vec() || dir.vec_size() != 1 {
            return Err(BoardError::InvalidVec);
        }
        if from == to {
            return self.push_one(player, from, dir);
        }
        if !from.is_linear_to(to) || from.distance(to) > 2 {
            return Err(BoardError::InvalidCord);
        }
        proof {
            lemma_unit_steps(dir@);
        }
        if from.dir(to) == dir {
            return self.push_foward(player, from, dir);
        } else if from.dir(to) == dir.neg() {
            return self.push_foward(player, to, dir);
        } else {
            return self.push_sideways(player, from, to, dir);
        }
    }

    /// Carries out the move `m`, or refuses it and changes nothing.
    pub fn push(&mut self, m: Move) -> (r: Result<(), BoardError>)
        ensures
            final(self)@.wf(),
            match old(self)@.pushed(m.player, m.from@, m.to@, m.dir@) {
                Ok(grid) => r is Ok && final(self)@ == grid,
                Err(e) => r == Err::<(), BoardError>(e) && final(self)@ == old(self)@,
            },
    {
        self.push_internal(m.player, m.from, m.to, m.dir)
    }
}

} // verus!
