//! What a learner needs of the world it acts in, and tic-tac-toe as such
//! a world.

use vstd::prelude::*;
use crate::game::Game;

verus! {

/// A world of states in which actions lead from state to state and earn
/// rewards.
pub trait Environment {
    type Action;

    type State;

    type Reward;

    /// Whether `action` may be taken in `state`.
    spec fn allows(state: &Self::State, action: &Self::Action) -> bool;

    /// The state in which every episode starts.
    fn new() -> Self::State;

    /// The actions that may be taken in `state`: every action that is
    /// allowed there, and no other.
    fn actions(state: &Self::State) -> (actions: Vec<Self::Action>)
        ensures
            forall|action: Self::Action|
                actions@.contains(action) <==> Self::allows(state, &action),
    ;

    /// The state that `action` leads to from `state`, and the reward for
    /// getting there.
    fn take_action(state: &Self::State, action: &Self::Action) -> (moved: (
        Self::State,
        Self::Reward,
    ))
        requires
            Self::allows(state, action),
    ;

    /// The state as text for a reader. An environment with nothing to show
    /// leaves this as it is and gives the empty text.
    fn render(_state: &Self::State) -> (text: String)
        default_ensures
            text@ == Seq::<char>::empty(),
    {
        String::new()
    }
}

/// Tic-tac-toe: the states are games, the actions are cells, and the reward
/// of a move is that of the state it leads to: 1 where `X` has won, -1 where
/// `O` has, and 0 otherwise.
pub struct TicTacToeEnv {}

impl Environment for TicTacToeEnv {
    type Action = usize;

    type State = Game;

    type Reward = i8;

    open spec fn allows(state: &Game, action: &usize) -> bool {
        state@.legal(*action as int)
    }

    fn new() -> (game: Game)
        ensures
            game@ == crate::position::Position::initial(),
    {
        Game::new()
    }

    fn actions(state: &Game) -> (actions: Vec<usize>)
        ensures
            actions@ == state@.legal_actions(),
    {
        state.actions()
    }

    fn take_action(state: &Game, action: &usize) -> (moved: (Game, i8))
        ensures
            moved.0@ == state@.play(*action as int),
            moved.1 == moved.0@.outcome().reward_value(),
    {
        let next = state.take_action(*action);
        let reward: i8 = next.result().reward();
        (next, reward)
    }

    fn render(state: &Game) -> (text: String)
        ensures
            text@ == state@.rendering(),
    {
        state.render()
    }
}

} // verus!
