use vstd::prelude::*;

verus! {

/// The side that owns a piece, or `Nobody` for an empty square.
#[derive(Debug, PartialEq, Eq, Structural, Clone, Copy)]
pub enum Player {
    White,
    Black,
    Nobody,
}

impl Player {
    /// The side that plays against `self`; `Nobody` has no opponent.
    pub open spec fn opponent(self) -> Player {
        match self {
            Player::White => Player::Black,
            Player::Black => Player::White,
            Player::Nobody => Player::Nobody,
        }
    }

    /// The side's name, as `{:?}` would print it.
    pub fn name(&self) -> (r: &'static str)
        ensures
            *self == Player::White ==> r@ == "White"@,
            *self == Player::Black ==> r@ == "Black"@,
            *self == Player::Nobody ==> r@ == "Nobody"@,
    {
        match self {
            Player::White => "White",
            Player::Black => "Black",
            Player::Nobody => "Nobody",
        }
    }
}

} // verus!
