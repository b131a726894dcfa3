//! A sparse table of value estimates, one for each board that has been
//! given one, found by the canonical key of the board.

use std::collections::HashMap;
use vstd::prelude::*;
use crate::encoding::BOARD_KEYS;
use crate::game::{Game, IllegalAction};
use crate::position::Position;
use crate::theory::{lemma_key_bound, lemma_key_injective};

verus! {

/// Value estimates by board. A board that was never updated has the
/// estimate the table was made with. The table only grows.
pub struct ValueTable<V> {
    estimates: HashMap<u16, V>,
    unseen: V,
}

/// A finite set of keys below `bound` has at most `bound` members.
proof fn lemma_bounded_keys(keys: Set<u16>, bound: nat)
    requires
        keys.finite(),
        forall|key: u16| keys.contains(key) ==> key < bound,
    ensures
        keys.len() <= bound,
    decreases bound,
{
    if bound == 0 {
        assert(keys =~= Set::<u16>::empty());
    } else {
        let top = (bound - 1) as u16;
        lemma_bounded_keys(keys.remove(top), (bound - 1) as nat);
    }
}

impl<V> ValueTable<V> {
    /// Every stored key is the key of a board.
    #[verifier::type_invariant]
    spec fn keys_are_board_keys(&self) -> bool {
        forall|key: u16| self.estimates@.contains_key(key) ==> key < BOARD_KEYS
    }
}

impl<V: Copy> ValueTable<V> {
    /// The estimates that have been stored, by key.
    pub closed spec fn stored(&self) -> Map<u16, V> {
        self.estimates@
    }

    /// The estimate of a board that has none stored.
    pub closed spec fn unseen_value(&self) -> V {
        self.unseen
    }

    /// The estimate of the board with the given key.
    pub open spec fn estimate(&self, key: nat) -> V {
        if key <= u16::MAX && self.stored().contains_key(key as u16) {
            self.stored()[key as u16]
        } else {
            self.unseen_value()
        }
    }

    /// The estimate of a position: that of its board.
    pub open spec fn value_of(&self, p: Position) -> V {
        self.estimate(p.key())
    }

    /// An empty table in which every board has the estimate `unseen`.
    pub fn new(unseen: V) -> (table: Self)
        ensures
            table.stored() == Map::<u16, V>::empty(),
            table.unseen_value() == unseen,
            forall|p: Position| table.value_of(p) == unseen,
    {
        ValueTable { estimates: HashMap::new(), unseen }
    }

    /// How many boards have a stored estimate: never more than there are
    /// boards.
    pub fn len(&self) -> (count: usize)
        ensures
            count == self.stored().len(),
            count <= BOARD_KEYS,
    {
        proof {
            use_type_invariant(self);
            lemma_bounded_keys(self.estimates@.dom(), BOARD_KEYS as nat);
        }
        self.estimates.len()
    }

    /// The estimate of the state's board.
    pub fn get_v(&self, game: &Game) -> (value: V)
        ensures
            value == self.value_of(game@),
    {
        let key: u16 = game.hash();
        match self.estimates.get(&key) {
            Some(value) => *value,
            None => self.unseen,
        }
    }

    /// Overwrites the estimate of the state's board with `value`. The
    /// estimate of every other board stays as it was.
    pub fn update_v(&mut self, game: &Game, value: V)
        ensures
            final(self).stored() == old(self).stored().insert(game@.key() as u16, value),
            final(self).unseen_value() == old(self).unseen_value(),
            old(self).stored().dom().subset_of(final(self).stored().dom()),
            forall|p: Position|
                p.wf() ==> #[trigger] final(self).value_of(p) == (if p.cells == game@.cells {
                    value
                } else {
                    old(self).value_of(p)
                }),
    {
        let key: u16 = game.hash();
        proof {
            use_type_invariant(&*self);
        }
        // The map is taken out of the table while it changes.
        let mut estimates: HashMap<u16, V> = HashMap::new();
        std::mem::swap(&mut self.estimates, &mut estimates);
        estimates.insert(key, value);
        std::mem::swap(&mut self.estimates, &mut estimates);
        proof {
            assert forall|p: Position| p.wf() implies #[trigger] self.value_of(p) == (if p.cells
                == game@.cells {
                value
            } else {
                old(self).value_of(p)
            }) by {
                lemma_key_bound(p);
                if p.key() == game@.key() {
                    lemma_key_injective(p, game@);
                }
            }
        }
    }

    /// The estimates of the states that the actions lead to from `game`, in
    /// the order of the actions. An action that is not legal in `game` is
    /// refused, the first such one in the order of the actions.
    pub fn successor_values(&self, game: &Game, actions: &[usize]) -> (outcome: Result<
        Vec<V>,
        IllegalAction,
    >)
        ensures
            match outcome {
                Ok(values) => {
                    &&& values@.len() == actions@.len()
                    &&& forall|i: int|
                        0 <= i < actions@.len() ==> game@.legal(#[trigger] actions@[i] as int)
                    &&& forall|i: int|
                        0 <= i < actions@.len() ==> #[trigger] values@[i] == self.value_of(
                            game@.play(actions@[i] as int),
                        )
                },
                Err(refusal) => exists|i: int|
                    {
                        &&& 0 <= i < actions@.len()
                        &&& #[trigger] actions@[i] == refusal.action
                        &&& !game@.legal(refusal.action as int)
                        &&& forall|j: int| 0 <= j < i ==> game@.legal(#[trigger] actions@[j] as int)
                    },
            },
    {
        let mut values: Vec<V> = Vec::new();
        let mut i: usize = 0;
        while i < actions.len()
            invariant
                i <= actions@.len(),
                values@.len() == i,
                forall|j: int| 0 <= j < i ==> game@.legal(#[trigger] actions@[j] as int),
                forall|j: int|
                    0 <= j < i ==> #[trigger] values@[j] == self.value_of(
                        game@.play(actions@[j] as int),
                    ),
            decreases actions@.len() - i,
        {
            match game.try_take_action(actions[i]) {
                Ok(next) => {
                    values.push(self.get_v(&next));
                },
                Err(refusal) => {
                    assert(actions@[i as int] == refusal.action);
                    return Err(refusal);
                },
            }
            i += 1;
        }
        Ok(values)
    }
}

} // verus!
