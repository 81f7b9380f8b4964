//! Cell values, players and the errors of the board.

use vstd::prelude::*;

verus! {

/// What a cell of the board holds.
#[derive(Clone, Copy, Debug, PartialEq, Eq, Structural)]
pub enum Stone {
    Blank,
    Black,
    White,
}

/// One of the two sides of a game.
#[derive(Clone, Copy, Debug, PartialEq, Eq, Structural)]
pub enum Player {
    White,
    Black,
}

/// Why the board refused a request.
#[derive(Clone, Copy, Debug, PartialEq, Eq, Structural)]
pub enum BoardError {
    /// A coordinate lies outside the board, or a selection is not a short straight line.
    InvalidCord,
    /// The direction is not a single step along one of the six axes.
    InvalidVec,
    /// The move breaks a rule of the game.
    InvalidMove,
}

impl Stone {
    /// The number that stands for the stone where a board is written down:
    /// 0 for a blank cell, 1 for a black stone, 2 for a white one.
    pub open spec fn code(self) -> u64 {
        match self {
            Stone::Blank => 0,
            Stone::Black => 1,
            Stone::White => 2,
        }
    }

    /// The number that stands for the stone.
    pub fn number(self) -> (n: u64)
        ensures
            n == self.code(),
    {
        match self {
            Stone::Blank => 0,
            Stone::Black => 1,
            Stone::White => 2,
        }
    }

    /// The stone that `n` stands for, if there is one.
    pub fn from_number(n: u64) -> (stone: Option<Stone>)
        ensures
            n > 2 ==> stone.is_none(),
            n <= 2 ==> stone.is_some() && stone.unwrap().code() == n,
    {
        if n == 0 {
            Some(Stone::Blank)
        } else if n == 1 {
            Some(Stone::Black)
        } else if n == 2 {
            Some(Stone::White)
        } else {
            None
        }
    }

    /// The letter that stands for the stone where a board is printed: `O`
    /// for a blank cell, `B` for a black stone, `W` for a white one.
    pub fn to_string(&self) -> (letter: String)
        ensures
            *self == Stone::Blank ==> letter@ == "O"@,
            *self == Stone::Black ==> letter@ == "B"@,
            *self == Stone::White ==> letter@ == "W"@,
    {
        match self {
            Stone::Blank => "O".to_owned(),
            Stone::Black => "B".to_owned(),
            Stone::White => "W".to_owned(),
        }
    }
}

impl BoardError {
    /// The error in words.
    pub fn description(&self) -> (text: &'static str)
        ensures
            *self == BoardError::InvalidCord ==> text@ == "Invalid coordinates"@,
            *self == BoardError::InvalidVec ==> text@ == "Invalid vec"@,
            *self == BoardError::InvalidMove ==> text@ == "Invalid move"@,
    {
        match self {
            BoardError::InvalidCord => "Invalid coordinates",
            BoardError::InvalidVec => "Invalid vec",
            BoardError::InvalidMove => "Invalid move",
        }
    }
}

impl Player {
    /// The stone that this player puts on the board.
    pub open spec fn stone_spec(&self) -> Stone {
        match self {
            Player::White => Stone::White,
            Player::Black => Stone::Black,
        }
    }

    /// The stone that this player puts on the board.
    #[verifier::when_used_as_spec(stone_spec)]
    pub fn stone(&self) -> (s: Stone)
        ensures
            s == self.stone_spec(),
            s != Stone::Blank,
    {
        match self {
            Player::White => Stone::White,
            Player::Black => Stone::Black,
        }
    }

    /// The player's name in lower case.
    pub fn to_string(&self) -> (name: String)
        ensures
            *self == Player::White ==> name@ == "white"@,
            *self == Player::Black ==> name@ == "black"@,
    {
        match self {
            Player::White => "white".to_owned(),
            Player::Black => "black".to_owned(),
        }
    }
}

} // verus!
