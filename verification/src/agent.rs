//! What a learner is: estimates of the value of states, and a policy that
//! picks among the actions it is offered.

use vstd::prelude::*;

verus! {

/// A learner over states of type `State` that acts by actions of type
/// `Action`.
pub trait Agent<State, Action> {
    type Value;

    /// The estimate that the agent holds of the value of `state`.
    spec fn estimate(&self, state: &State) -> Self::Value;

    /// The agent's estimate of the value of `state`.
    fn get_v(&self, state: &State) -> (value: Self::Value)
        ensures
            value == self.estimate(state),
    ;

    /// Replaces the agent's estimate of the value of `state` by `value`.
    fn update_v(&mut self, state: &State, value: Self::Value)
        ensures
            final(self).estimate(state) == value,
    ;

    /// The action that the agent takes in `state`, one of `actions`. There
    /// must be an action to take.
    fn get_policy(&self, state: &State, actions: &[Action]) -> (chosen: Action)
        requires
            actions@.len() > 0,
        ensures
            actions@.contains(chosen),
    ;
}

} // verus!
