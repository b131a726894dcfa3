//! The two marks of the game.

use vstd::prelude::*;

verus! {

/// A player's mark. `X` moves first.
#[derive(Copy, Clone, Debug, PartialEq, Eq, Structural)]
pub enum Color {
    X,
    O,
}

impl Color {
    /// The mark of the other player.
    pub open spec fn opponent(self) -> Color {
        match self {
            Color::X => Color::O,
            Color::O => Color::X,
        }
    }

    /// Returns the mark of the other player.
    pub fn switch(self) -> (next: Color)
        ensures
            next == self.opponent(),
    {
        match self {
            Color::X => Color::O,
            Color::O => Color::X,
        }
    }
}

/// The opponent of a mark is the other mark, and the opponent of that is
/// the mark itself.
pub proof fn lemma_opponent_involution(color: Color)
    ensures
        color.opponent().opponent() == color,
        color.opponent() != color,
{
}

} // verus!
