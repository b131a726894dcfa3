//! Action selection: the greedy choice by rank, and the exploring choice
//! at random.
//!
//! One table of values serves both players. `X` looks for the greatest
//! value among the states it can move to and `O` for the least. The values
//! come to the policy as integer ranks, which order as the values do. A
//! value that is a double-precision number has the rank of its bits.

use vstd::prelude::*;
use crate::color::Color;

verus! {

/// The bits of a double-precision number read as a sign and a magnitude:
/// the low 63 bits as they are where the top bit is clear, and negated
/// where it is set. Both zeros come to 0.
pub open spec fn sign_magnitude(bits: u64) -> int {
    if bits < 0x8000_0000_0000_0000 {
        bits as int
    } else {
        0x8000_0000_0000_0000 - bits
    }
}

/// The rank of a double-precision number, given by its bits.
///
/// Numbers of the IEEE 754 formats order as their bits do when read as a
/// sign and a magnitude, so the ranks of two numbers compare as the numbers
/// themselves, and the two zeros share a rank. A NaN ranks beyond the
/// infinity of its sign.
pub fn rank_of_bits(bits: u64) -> (rank: i64)
    ensures
        rank == sign_magnitude(bits),
{
    if bits < 0x8000_0000_0000_0000 {
        bits as i64
    } else {
        -((bits - 0x8000_0000_0000_0000) as i64)
    }
}

/// Whether rank `a` is strictly better for the mover than rank `b`:
/// greater for `X`, less for `O`.
pub open spec fn better(to_move: Color, a: i64, b: i64) -> bool {
    match to_move {
        Color::X => a > b,
        Color::O => a < b,
    }
}

/// `best` is the index of the first rank that no other rank betters: no
/// rank is better than it, and it is better than every rank before it.
pub open spec fn is_first_best(to_move: Color, ranks: Seq<i64>, best: int) -> bool {
    &&& 0 <= best < ranks.len()
    &&& forall|j: int| 0 <= j < ranks.len() ==> !better(to_move, #[trigger] ranks[j], ranks[best])
    &&& forall|j: int| 0 <= j < best ==> better(to_move, ranks[best], #[trigger] ranks[j])
}

/// The index of the first best rank.
pub open spec fn first_best(to_move: Color, ranks: Seq<i64>) -> int {
    choose|best: int| is_first_best(to_move, ranks, best)
}

/// At most one index is the first best.
pub proof fn lemma_first_best_unique(to_move: Color, ranks: Seq<i64>, a: int, b: int)
    requires
        is_first_best(to_move, ranks, a),
        is_first_best(to_move, ranks, b),
    ensures
        a == b,
        first_best(to_move, ranks) == a,
{
    if a < b {
        assert(better(to_move, ranks[b], ranks[a]));
        assert(!better(to_move, ranks[b], ranks[a]));
    }
    if b < a {
        assert(better(to_move, ranks[a], ranks[b]));
        assert(!better(to_move, ranks[a], ranks[b]));
    }
    let c = first_best(to_move, ranks);
    if c < a {
        assert(better(to_move, ranks[a], ranks[c]));
        assert(!better(to_move, ranks[a], ranks[c]));
    }
    if a < c {
        assert(better(to_move, ranks[c], ranks[a]));
        assert(!better(to_move, ranks[c], ranks[a]));
    }
}

/// Among one or more ranks there is a first best.
pub proof fn lemma_first_best_exists(to_move: Color, ranks: Seq<i64>)
    requires
        ranks.len() > 0,
    ensures
        is_first_best(to_move, ranks, first_best(to_move, ranks)),
    decreases ranks.len(),
{
    if ranks.len() == 1 {
        assert(is_first_best(to_move, ranks, 0));
    } else {
        let front = ranks.drop_last();
        lemma_first_best_exists(to_move, front);
        let b = first_best(to_move, front);
        let last = ranks.len() - 1;
        if better(to_move, ranks[last], front[b]) {
            assert forall|j: int| 0 <= j < ranks.len() implies !better(
                to_move,
                #[trigger] ranks[j],
                ranks[last],
            ) by {
                if j < last {
                    assert(!better(to_move, front[j], front[b]));
                }
            }
            assert forall|j: int| 0 <= j < last implies better(
                to_move,
                ranks[last],
                #[trigger] ranks[j],
            ) by {
                assert(!better(to_move, front[j], front[b]));
            }
            assert(is_first_best(to_move, ranks, last));
        } else {
            assert forall|j: int| 0 <= j < ranks.len() implies !better(
                to_move,
                #[trigger] ranks[j],
                ranks[b],
            ) by {
                if j < last {
                    assert(!better(to_move, front[j], front[b]));
                }
            }
            assert forall|j: int| 0 <= j < b implies better(to_move, ranks[b], #[trigger] ranks[j]) by {
                assert(better(to_move, front[b], front[j]));
            }
            assert(is_first_best(to_move, ranks, b));
        }
    }
}

/// Whether rank `a` is strictly better for the mover than rank `b`.
fn is_better(to_move: Color, a: i64, b: i64) -> (yes: bool)
    ensures
        yes == better(to_move, a, b),
{
    match to_move {
        Color::X => a > b,
        Color::O => a < b,
    }
}

/// The greedy choice: the index of the greatest rank when `X` moves and of
/// the least when `O` moves, the first such index where several ranks tie.
pub fn greedy_index(to_move: Color, ranks: &[i64]) -> (best: usize)
    requires
        ranks@.len() > 0,
    ensures
        best == first_best(to_move, ranks@),
        is_first_best(to_move, ranks@, best as int),
{
    let mut best: usize = 0;
    let mut i: usize = 1;
    while i < ranks.len()
        invariant
            1 <= i <= ranks@.len(),
            is_first_best(to_move, ranks@.take(i as int), best as int),
        decreases ranks@.len() - i,
    {
        if is_better(to_move, ranks[i], ranks[best]) {
            best = i;
        }
        assert(is_first_best(to_move, ranks@.take(i + 1), best as int)) by {
            let prefix = ranks@.take(i as int);
            let longer = ranks@.take(i + 1);
            assert forall|j: int| 0 <= j < longer.len() implies !better(
                to_move,
                #[trigger] longer[j],
                longer[best as int],
            ) by {
                if j < i {
                    assert(longer[j] == prefix[j]);
                }
            }
            assert forall|j: int| 0 <= j < best implies better(
                to_move,
                longer[best as int],
                #[trigger] longer[j],
            ) by {
                assert(longer[j] == prefix[j]);
            }
        }
        i += 1;
    }
    proof {
        assert(ranks@.take(ranks@.len() as int) =~= ranks@);
        lemma_first_best_unique(to_move, ranks@, best as int, best as int);
    }
    best
}

/// The generator of random numbers that `rand` keeps for each thread.
#[verifier::external_type_specification]
#[verifier::external_body]
pub struct ExThreadRng(rand::ThreadRng);

/// `rand::thread_rng` hands out the generator of the calling thread.
/// Nothing is stated of it. It needs entropy from the system when a thread
/// first asks for it.
pub assume_specification[ rand::thread_rng ]() -> (rng: rand::ThreadRng)
;

/// Draws one of `actions` with `rand::Rng::choose`. By its source,
/// `choose` gives `None` for an empty slice and otherwise a reference to
/// the element at an index that it draws within the slice. Which element
/// comes is not stated.
#[verifier::external_body]
fn draw(rng: &mut rand::ThreadRng, actions: &[usize]) -> (drawn: Option<usize>)
    ensures
        drawn is None <==> actions@.len() == 0,
        drawn matches Some(action) ==> actions@.contains(action),
{
    rand::Rng::choose(rng, actions).copied()
}

/// The action whose rank is best for the mover, where `ranks[i]` is the
/// rank of `actions[i]`: the first such action where several tie.
pub open spec fn greedy_action(to_move: Color, actions: Seq<usize>, ranks: Seq<i64>) -> usize {
    actions[first_best(to_move, ranks)]
}

/// The choice that a draw comes to: the action drawn where one was, and
/// the greedy action where none was.
pub fn decide(drawn: Option<usize>, to_move: Color, actions: &[usize], ranks: &[i64]) -> (chosen:
    usize)
    requires
        actions@.len() > 0,
        ranks@.len() == actions@.len(),
    ensures
        chosen == (match drawn {
            Some(action) => action,
            None => greedy_action(to_move, actions@, ranks@),
        }),
{
    match drawn {
        Some(action) => action,
        None => actions[greedy_index(to_move, ranks)],
    }
}

/// The epsilon-greedy choice among `actions`, where `ranks[i]` is the rank
/// of the state that `actions[i]` leads to.
///
/// When exploring, the choice is one of the actions, drawn at random. When
/// not, it is the action whose rank is best for the mover, the first such
/// action where several tie.
pub fn select_action(explore: bool, to_move: Color, actions: &[usize], ranks: &[i64]) -> (chosen:
    usize)
    requires
        actions@.len() > 0,
        ranks@.len() == actions@.len(),
    ensures
        actions@.contains(chosen),
        !explore ==> chosen == greedy_action(to_move, actions@, ranks@),
{
    let drawn = if explore {
        let mut rng = rand::thread_rng();
        draw(&mut rng, actions)
    } else {
        None
    };
    proof {
        assert(0 <= first_best(to_move, ranks@) < actions@.len()) by {
            lemma_first_best_exists(to_move, ranks@);
        }
    }
    decide(drawn, to_move, actions, ranks)
}

} // verus!
