//! The executable game state and its operations, each specified against
//! the [`Position`] model.

use vstd::prelude::*;
use crate::color::Color;
use crate::encoding::{encode, lemma_encode_step, lemma_pow3_values, pow3, BOARD_KEYS};
use crate::position::{
    empties_below, first_owner, glyph, is_full, lemma_empties_below, line, line_owner, GameResult,
    Position,
};

verus! {

/// A game state: the board and the mark to move. A move gives a new state
/// and leaves the old one as it was.
#[derive(Copy, Clone, Debug, PartialEq, Eq)]
pub struct Game {
    pub board: [Option<Color>; 9],
    pub to_move: Color,
}

/// The refusal of an action that names no empty cell of the board.
#[derive(Copy, Clone, Debug, PartialEq, Eq)]
pub struct IllegalAction {
    /// The action that was refused.
    pub action: usize,
}

/// One move of an episode: the state it led to, what that state has come
/// to, and the reward for the move.
#[derive(Copy, Clone, Debug, PartialEq, Eq)]
pub struct Transition {
    pub next: Game,
    pub result: GameResult,
    pub reward: i8,
}

impl View for Game {
    type V = Position;

    open spec fn view(&self) -> Position {
        Position { cells: self.board@, to_move: self.to_move }
    }
}

/// A state is told by its view: every state has nine cells, and two
/// states with the same view are the same state.
pub proof fn lemma_game_view(a: Game, b: Game)
    ensures
        a@.wf(),
        a@ == b@ ==> a == b,
{
    if a@ == b@ {
        assert(a.board =~= b.board);
    }
}

/// The cells of line `k`, as indices into the board.
fn line_cells(k: usize) -> (cells: (usize, usize, usize))
    requires
        k < 8,
    ensures
        (cells.0 as int, cells.1 as int, cells.2 as int) == line(k as int),
        cells.0 < 9,
        cells.1 < 9,
        cells.2 < 9,
{
    if k < 3 {
        (3 * k, 3 * k + 1, 3 * k + 2)
    } else if k < 6 {
        (k - 3, k, k + 3)
    } else if k == 6 {
        (0, 4, 8)
    } else {
        (2, 4, 6)
    }
}

/// The base-3 digit of a cell.
fn cell_digit(cell: Option<Color>) -> (d: u16)
    ensures
        d == crate::encoding::digit(cell),
{
    match cell {
        None => 0,
        Some(Color::X) => 1,
        Some(Color::O) => 2,
    }
}

/// Whether two cells hold the same content.
fn same_cell(a: Option<Color>, b: Option<Color>) -> (same: bool)
    ensures
        same == (a == b),
{
    match (a, b) {
        (None, None) => true,
        (Some(Color::X), Some(Color::X)) => true,
        (Some(Color::O), Some(Color::O)) => true,
        _ => false,
    }
}

impl Game {
    /// The empty board with `X` to move.
    pub fn new() -> (game: Game)
        ensures
            game@ == Position::initial(),
    {
        let game = Game { board: [None;9], to_move: Color::X };
        assert(game@.cells =~= Position::initial().cells);
        game
    }

    /// The state after the mover has marked the empty cell `action`: the
    /// cell holds the mover's mark and the turn has passed to the other.
    pub fn take_action(&self, action: usize) -> (next: Game)
        requires
            self@.legal(action as int),
        ensures
            next@ == self@.play(action as int),
    {
        let mut next = *self;
        next.board[action] = Some(next.to_move);
        next.to_move = next.to_move.switch();
        assert(next@.cells =~= self@.play(action as int).cells);
        next
    }

    /// As [`Game::take_action`], for any action: one that is out of range
    /// or names an occupied cell is refused, and the state is left alone.
    pub fn try_take_action(&self, action: usize) -> (outcome: Result<Game, IllegalAction>)
        ensures
            match outcome {
                Ok(next) => self@.legal(action as int) && next@ == self@.play(action as int),
                Err(refusal) => !self@.legal(action as int) && refusal.action == action,
            },
    {
        if action < 9 && self.board[action].is_none() {
            Ok(self.take_action(action))
        } else {
            Err(IllegalAction { action })
        }
    }

    /// One move of an episode: takes the action, and says what the new
    /// state has come to and what the move is rewarded with. The reward is
    /// that of the new state's result, from the side of `X`. An action that
    /// is not legal is refused.
    pub fn step(&self, action: usize) -> (outcome: Result<Transition, IllegalAction>)
        ensures
            match outcome {
                Ok(moved) => {
                    &&& self@.legal(action as int)
                    &&& moved.next@ == self@.play(action as int)
                    &&& moved.result == moved.next@.outcome()
                    &&& moved.reward == moved.result.reward_value()
                },
                Err(refusal) => !self@.legal(action as int) && refusal.action == action,
            },
    {
        match self.try_take_action(action) {
            Ok(next) => {
                let result = next.result();
                let reward: i8 = result.reward();
                Ok(Transition { next, result, reward })
            },
            Err(refusal) => Err(refusal),
        }
    }

    /// The state after the actions have been taken in order.
    pub fn take_actions(&self, actions: &[usize]) -> (last: Game)
        requires
            self@.legal_run(actions@),
        ensures
            last@ == self@.play_all(actions@),
    {
        let mut current = *self;
        let mut i: usize = 0;
        proof {
            assert(actions@.skip(0) =~= actions@);
        }
        while i < actions.len()
            invariant
                i <= actions@.len(),
                current@.legal_run(actions@.skip(i as int)),
                current@.play_all(actions@.skip(i as int)) == self@.play_all(actions@),
            decreases actions@.len() - i,
        {
            proof {
                let rest = actions@.skip(i as int);
                assert(rest[0] == actions@[i as int]);
                assert(rest.drop_first() =~= actions@.skip(i + 1));
            }
            current = current.take_action(actions[i]);
            i += 1;
        }
        current
    }

    /// The indices of the empty cells, ascending; empty when the board is
    /// full.
    pub fn actions(&self) -> (actions: Vec<usize>)
        ensures
            actions@ == self@.legal_actions(),
            forall|a: usize| actions@.contains(a) <==> self@.legal(a as int),
            forall|i: int, j: int| 0 <= i < j < actions@.len() ==> actions@[i] < actions@[j],
            actions@.len() == 0 <==> is_full(self.board@),
    {
        let mut actions: Vec<usize> = Vec::new();
        let mut i: usize = 0;
        while i < 9
            invariant
                i <= 9,
                actions@ == empties_below(self.board@, i as int),
            decreases 9 - i,
        {
            if self.board[i].is_none() {
                actions.push(i);
            }
            i += 1;
        }
        proof {
            lemma_empties_below(self.board@, 9);
            if actions@.len() == 0 {
                assert forall|i: int| 0 <= i < 9 implies (#[trigger] self.board@[i]) is Some by {
                    assert(!actions@.contains(i as usize));
                }
            } else {
                assert(actions@.contains(actions@[0]));
            }
        }
        actions
    }

    /// The canonical key of the board: its cells as a number in base 3,
    /// cell `i` at weight `3^i`, with 0 for empty, 1 for `X` and 2 for `O`.
    /// The mark to move has no part in it.
    pub fn hash(&self) -> (key: u16)
        ensures
            key == self@.key(),
            key < BOARD_KEYS,
    {
        let mut key: u16 = 0;
        let mut power: u16 = 1;
        let mut i: usize = 0;
        proof {
            lemma_pow3_values();
            assert(self.board@.take(0) =~= Seq::<Option<Color>>::empty());
        }
        while i < 9
            invariant
                i <= 9,
                power == pow3(i as nat),
                key == encode(self.board@.take(i as int)),
                key < power,
            decreases 9 - i,
        {
            let d: u16 = cell_digit(self.board[i]);
            proof {
                lemma_pow3_values();
                lemma_encode_step(self.board@, i as int);
                assert(power * d <= power * 2) by (nonlinear_arith)
                    requires
                        d <= 2,
                ;
                assert(pow3((i + 1) as nat) == 3 * pow3(i as nat));
                assert(power <= 6561);
            }
            key += power * d;
            power *= 3;
            i += 1;
        }
        proof {
            assert(self.board@.take(9) =~= self.board@);
        }
        key
    }

    /// The board as text: three rows of three cells, each cell three
    /// characters wide (`.`, `X` or `O` between two spaces), each row ended
    /// by a newline.
    pub fn render(&self) -> (text: String)
        ensures
            text@ == self@.rendering(),
    {
        let mut text = String::new();
        let mut i: usize = 0;
        proof {
            assert(self@.rendering().take(0) =~= Seq::<char>::empty());
        }
        while i < 9
            invariant
                i <= 9,
                text@ == self@.rendering().take(3 * i + i / 3),
            decreases 9 - i,
        {
            let cell = match self.board[i] {
                None => " . ",
                Some(Color::X) => " X ",
                Some(Color::O) => " O ",
            };
            proof {
                reveal_strlit(" . ");
                reveal_strlit(" X ");
                reveal_strlit(" O ");
                reveal_strlit("\n");
                let start = 3 * i + i / 3;
                assert(cell@.len() == 3);
                assert(cell@[0] == ' ' && cell@[1] == glyph(self.board@[i as int]) && cell@[2] == ' ');
                assert(text@ + cell@ =~= self@.rendering().take(start + 3));
                if i % 3 == 2 {
                    assert(text@ + cell@ + "\n"@ =~= self@.rendering().take(start + 4));
                }
            }
            text.append(cell);
            if i % 3 == 2 {
                text.append("\n");
            }
            i += 1;
        }
        proof {
            assert(self@.rendering().take(30) =~= self@.rendering());
        }
        text
    }

    /// The mark that owns line `k`, if one does.
    fn owner_of_line(&self, k: usize) -> (owner: Option<Color>)
        requires
            k < 8,
        ensures
            owner == line_owner(self.board@, k as int),
    {
        let (a, b, c) = line_cells(k);
        let first = self.board[a];
        if first.is_some() && same_cell(first, self.board[b]) && same_cell(first, self.board[c]) {
            first
        } else {
            None
        }
    }

    /// Whether the game is over, and who has won it.
    ///
    /// The lines are scanned rows first, then columns, then diagonals;
    /// the first owned line decides the winner. A full board without an
    /// owned line is a draw.
    pub fn result(&self) -> (result: GameResult)
        ensures
            result == self@.outcome(),
    {
        let mut k: usize = 0;
        while k < 8
            invariant
                k <= 8,
                first_owner(self.board@, 0) == first_owner(self.board@, k as int),
            decreases 8 - k,
        {
            let owner = self.owner_of_line(k);
            if owner.is_some() {
                return GameResult { has_ended: true, winner: owner };
            }
            k += 1;
        }
        let full = self.actions().len() == 0;
        GameResult { has_ended: full, winner: None }
    }
}

} // verus!
