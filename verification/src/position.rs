//! The mathematical model of a game position: nine cells and the mark to
//! move, with the rules of play stated over sequences.

use vstd::prelude::*;
use crate::color::Color;
use crate::encoding::encode;

verus! {

/// What a game has come to: whether it is over, and who won it.
///
/// `winner` is `None` for a draw and for a game still in progress.
#[derive(Copy, Clone, Debug, PartialEq, Eq)]
pub struct GameResult {
    pub has_ended: bool,
    pub winner: Option<Color>,
}

impl GameResult {
    /// The reward of a result, always from the side of `X`: 1 where `X` has
    /// won, -1 where `O` has, 0 for a draw and for a game in progress.
    pub open spec fn reward_value(self) -> int {
        if !self.has_ended {
            0
        } else {
            match self.winner {
                Some(Color::X) => 1,
                Some(Color::O) => -1,
                None => 0,
            }
        }
    }

    /// The reward of this result, from the side of `X`.
    pub fn reward(&self) -> (reward: i8)
        ensures
            reward == self.reward_value(),
    {
        if !self.has_ended {
            0
        } else {
            match self.winner {
                Some(Color::X) => 1,
                Some(Color::O) => -1,
                None => 0,
            }
        }
    }
}

/// A position as a value of the model: the cells in board order (row by
/// row, left to right) and the mark that moves next.
pub struct Position {
    pub cells: Seq<Option<Color>>,
    pub to_move: Color,
}

/// The three cells of line `k`. Lines 0 to 2 are the rows from the top,
/// 3 to 5 the columns from the left, 6 is the diagonal from cell 0 and 7
/// the diagonal from cell 2.
pub open spec fn line(k: int) -> (int, int, int) {
    if k < 3 {
        (3 * k, 3 * k + 1, 3 * k + 2)
    } else if k < 6 {
        (k - 3, k, k + 3)
    } else if k == 6 {
        (0, 4, 8)
    } else {
        (2, 4, 6)
    }
}

/// The mark that holds all three cells of line `k`, if one does.
pub open spec fn line_owner(cells: Seq<Option<Color>>, k: int) -> Option<Color> {
    let (a, b, c) = line(k);
    if cells[a] is Some && cells[a] == cells[b] && cells[a] == cells[c] {
        cells[a]
    } else {
        None
    }
}

/// The owner of the first owned line among lines `from..8`.
pub open spec fn first_owner(cells: Seq<Option<Color>>, from: int) -> Option<Color>
    decreases 8 - from,
{
    if from < 0 || from >= 8 {
        None
    } else if line_owner(cells, from) is Some {
        line_owner(cells, from)
    } else {
        first_owner(cells, from + 1)
    }
}

/// The character that shows a cell.
pub open spec fn glyph(cell: Option<Color>) -> char {
    match cell {
        None => '.',
        Some(Color::X) => 'X',
        Some(Color::O) => 'O',
    }
}

/// The character at place `p` of the rendered board. A row takes ten
/// places: three for each of its cells, the glyph between two spaces, and
/// one for the newline that ends it.
pub open spec fn rendered_char(cells: Seq<Option<Color>>, p: int) -> char {
    let place = p % 10;
    if place == 9 {
        '\n'
    } else if place % 3 == 1 {
        glyph(cells[3 * (p / 10) + place / 3])
    } else {
        ' '
    }
}

/// No cell is empty.
pub open spec fn is_full(cells: Seq<Option<Color>>) -> bool {
    forall|i: int| 0 <= i < cells.len() ==> (#[trigger] cells[i]) is Some
}

/// The indices of the empty cells among the first `n`, ascending.
pub open spec fn empties_below(cells: Seq<Option<Color>>, n: int) -> Seq<usize>
    decreases n,
{
    if n <= 0 {
        Seq::empty()
    } else if cells[n - 1] is None {
        empties_below(cells, n - 1).push((n - 1) as usize)
    } else {
        empties_below(cells, n - 1)
    }
}

/// How many of the cells hold `content`.
pub open spec fn count_of(cells: Seq<Option<Color>>, content: Option<Color>) -> nat
    decreases cells.len(),
{
    if cells.len() == 0 {
        0
    } else if cells.last() == content {
        count_of(cells.drop_last(), content) + 1
    } else {
        count_of(cells.drop_last(), content)
    }
}

impl Position {
    /// A position has exactly nine cells.
    pub open spec fn wf(self) -> bool {
        self.cells.len() == 9
    }

    /// The empty board with `X` to move.
    pub open spec fn initial() -> Position {
        Position { cells: Seq::new(9, |i: int| None::<Color>), to_move: Color::X }
    }

    /// An action is legal when it names an empty cell of the board.
    pub open spec fn legal(self, action: int) -> bool {
        0 <= action < 9 && self.cells[action] is None
    }

    /// The position after the mover has marked cell `action`.
    pub open spec fn play(self, action: int) -> Position {
        Position {
            cells: self.cells.update(action, Some(self.to_move)),
            to_move: self.to_move.opponent(),
        }
    }

    /// Every action of the run is legal at the moment it is played.
    pub open spec fn legal_run(self, actions: Seq<usize>) -> bool
        decreases actions.len(),
    {
        actions.len() == 0 || (self.legal(actions[0] as int) && self.play(
            actions[0] as int,
        ).legal_run(actions.drop_first()))
    }

    /// The position after the actions have been played in order.
    pub open spec fn play_all(self, actions: Seq<usize>) -> Position
        decreases actions.len(),
    {
        if actions.len() == 0 {
            self
        } else {
            self.play(actions[0] as int).play_all(actions.drop_first())
        }
    }

    /// The canonical key of the board. The mark to move has no part in it.
    pub open spec fn key(self) -> nat {
        encode(self.cells)
    }

    /// The board as text: three rows of three cells, each cell three
    /// characters wide, each row ended by a newline.
    pub open spec fn rendering(self) -> Seq<char> {
        Seq::new(30, |p: int| rendered_char(self.cells, p))
    }

    /// The legal actions in ascending order.
    pub open spec fn legal_actions(self) -> Seq<usize> {
        empties_below(self.cells, 9)
    }

    /// The mark that owns the first owned line, scanning the rows, then the
    /// columns, then the two diagonals.
    pub open spec fn winner(self) -> Option<Color> {
        first_owner(self.cells, 0)
    }

    /// The game is over once a line is owned or the board is full.
    pub open spec fn outcome(self) -> GameResult {
        GameResult {
            has_ended: self.winner() is Some || is_full(self.cells),
            winner: self.winner(),
        }
    }

    /// The marks on the board agree with the turn: `X` and `O` have moved
    /// equally often when `X` is to move, and `X` once more when `O` is.
    pub open spec fn turn_consistent(self) -> bool {
        let xs = count_of(self.cells, Some(Color::X));
        let os = count_of(self.cells, Some(Color::O));
        match self.to_move {
            Color::X => xs == os,
            Color::O => xs == os + 1,
        }
    }
}

/// The empty cells come out in strictly ascending order, each of them once,
/// and nothing else does.
pub proof fn lemma_empties_below(cells: Seq<Option<Color>>, n: int)
    requires
        0 <= n <= cells.len(),
        n <= usize::MAX,
    ensures
        empties_below(cells, n).len() <= n,
        forall|a: usize|
            empties_below(cells, n).contains(a) <==> (a < n && cells[a as int] is None),
        forall|i: int, j: int|
            0 <= i < j < empties_below(cells, n).len() ==> empties_below(cells, n)[i]
                < empties_below(cells, n)[j],
        forall|i: int|
            0 <= i < empties_below(cells, n).len() ==> (#[trigger] empties_below(cells, n)[i]) < n,
    decreases n,
{
    if n > 0 {
        lemma_empties_below(cells, n - 1);
        let rest = empties_below(cells, n - 1);
        let all = empties_below(cells, n);
        if cells[n - 1] is None {
            let top = (n - 1) as usize;
            assert(all == rest.push(top));
            assert(all[rest.len() as int] == top);
            assert forall|a: usize| all.contains(a) <==> (a < n && cells[a as int] is None) by {
                if all.contains(a) {
                    let i = choose|i: int| 0 <= i < all.len() && all[i] == a;
                    if i < rest.len() {
                        assert(rest[i] == a);
                        assert(rest.contains(a));
                    }
                }
                if a < n && cells[a as int] is None {
                    if a == top {
                        assert(all[rest.len() as int] == a);
                    } else {
                        assert(rest.contains(a));
                        let i = choose|i: int| 0 <= i < rest.len() && rest[i] == a;
                        assert(all[i] == a);
                    }
                }
            }
        }
    }
}

} // verus!
