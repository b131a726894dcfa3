//! What holds of every position: how a game ends, how a move changes the
//! board and its key, and how long a game can last.

use vstd::prelude::*;
use crate::color::Color;
use crate::encoding::{
    decode, digit, encode, lemma_encode_bound, lemma_encode_decode, lemma_encode_injective,
    lemma_pow3_values, pow3, BOARD_KEYS,
};
use crate::position::{
    count_of, empties_below, first_owner, is_full, lemma_empties_below, line_owner, GameResult,
    Position,
};

verus! {

/// The scan from line `from` finds an owner exactly when one of the lines
/// `from..8` is owned, and what it finds is the owner of the first of them.
pub proof fn lemma_first_owner(cells: Seq<Option<Color>>, from: int)
    requires
        0 <= from <= 8,
    ensures
        first_owner(cells, from) is None <==> forall|k: int|
            from <= k < 8 ==> line_owner(cells, k) is None,
        first_owner(cells, from) is Some ==> exists|k: int|
            from <= k < 8 && line_owner(cells, k) == first_owner(cells, from) && forall|j: int|
                from <= j < k ==> line_owner(cells, j) is None,
    decreases 8 - from,
{
    if from < 8 {
        lemma_first_owner(cells, from + 1);
        if line_owner(cells, from) is Some {
            assert(from <= from < 8 && line_owner(cells, from) == first_owner(cells, from));
        } else {
            if first_owner(cells, from) is Some {
                let k = choose|k: int|
                    from + 1 <= k < 8 && line_owner(cells, k) == first_owner(cells, from + 1)
                        && forall|j: int| from + 1 <= j < k ==> line_owner(cells, j) is None;
                assert(from <= k < 8 && line_owner(cells, k) == first_owner(cells, from)
                    && forall|j: int| from <= j < k ==> line_owner(cells, j) is None);
            }
        }
    }
}

/// A game is over exactly when a line is owned or the board is full, and it
/// has a winner exactly when a line is owned. The winner owns a line.
pub proof fn lemma_outcome(p: Position)
    ensures
        p.outcome().has_ended <==> (exists|k: int| 0 <= k < 8 && line_owner(p.cells, k) is Some)
            || is_full(p.cells),
        p.outcome().winner is Some <==> exists|k: int|
            0 <= k < 8 && line_owner(p.cells, k) is Some,
        p.outcome().winner is Some ==> exists|k: int|
            0 <= k < 8 && line_owner(p.cells, k) == p.outcome().winner,
{
    lemma_first_owner(p.cells, 0);
}

/// Where every owned line belongs to `mark`, and one line is owned, the game
/// is over and `mark` has won it, whatever the order of the scan.
pub proof fn lemma_line_wins(p: Position, mark: Color, k: int)
    requires
        0 <= k < 8,
        line_owner(p.cells, k) == Some(mark),
        forall|j: int|
            0 <= j < 8 && line_owner(p.cells, j) is Some ==> line_owner(p.cells, j) == Some(mark),
    ensures
        p.outcome() == (GameResult { has_ended: true, winner: Some(mark) }),
{
    lemma_first_owner(p.cells, 0);
}

/// A full board on which no line is owned is a draw.
pub proof fn lemma_full_board_draws(p: Position)
    requires
        is_full(p.cells),
        forall|k: int| 0 <= k < 8 ==> line_owner(p.cells, k) is None,
    ensures
        p.outcome() == (GameResult { has_ended: true, winner: None }),
{
    lemma_first_owner(p.cells, 0);
}

/// A board with an empty cell and no owned line is a game in progress.
pub proof fn lemma_open_board_goes_on(p: Position, empty: int)
    requires
        0 <= empty < p.cells.len(),
        p.cells[empty] is None,
        forall|k: int| 0 <= k < 8 ==> line_owner(p.cells, k) is None,
    ensures
        p.outcome() == (GameResult { has_ended: false, winner: None }),
{
    lemma_first_owner(p.cells, 0);
}

/// The key of a board lies below the number of boards, `3^9`.
pub proof fn lemma_key_bound(p: Position)
    requires
        p.wf(),
    ensures
        p.key() < BOARD_KEYS,
{
    lemma_encode_bound(p.cells);
    lemma_pow3_values();
}

/// Two boards with the same key are the same board: the key has no
/// collisions.
pub proof fn lemma_key_injective(p: Position, q: Position)
    requires
        p.wf(),
        q.wf(),
        p.key() == q.key(),
    ensures
        p.cells == q.cells,
{
    lemma_encode_injective(p.cells, q.cells);
}

/// Every number below `3^9` is the key of a board.
pub proof fn lemma_key_surjective(key: nat) -> (p: Position)
    requires
        key < BOARD_KEYS,
    ensures
        p.wf(),
        p.key() == key,
{
    lemma_pow3_values();
    lemma_encode_decode(key, 9);
    Position { cells: decode(key, 9), to_move: Color::X }
}

/// Writing `content` into cell `i` moves one occurrence from the old
/// content of the cell to the new.
pub proof fn lemma_count_update(
    cells: Seq<Option<Color>>,
    i: int,
    content: Option<Color>,
    counted: Option<Color>,
)
    requires
        0 <= i < cells.len(),
    ensures
        count_of(cells.update(i, content), counted) + (if cells[i] == counted {
            1nat
        } else {
            0nat
        }) == count_of(cells, counted) + (if content == counted {
            1nat
        } else {
            0nat
        }),
    decreases cells.len(),
{
    let updated = cells.update(i, content);
    if i == cells.len() - 1 {
        assert(updated.drop_last() =~= cells.drop_last());
    } else {
        lemma_count_update(cells.drop_last(), i, content, counted);
        assert(updated.drop_last() =~= cells.drop_last().update(i, content));
    }
}

/// Cells that all hold one content count as many as they are for that
/// content, and zero for any other.
pub proof fn lemma_count_uniform(
    cells: Seq<Option<Color>>,
    content: Option<Color>,
    counted: Option<Color>,
)
    requires
        forall|i: int| 0 <= i < cells.len() ==> cells[i] == content,
    ensures
        count_of(cells, counted) == (if content == counted {
            cells.len()
        } else {
            0
        }),
    decreases cells.len(),
{
    if cells.len() > 0 {
        lemma_count_uniform(cells.drop_last(), content, counted);
    }
}

/// A board is full exactly when it counts no empty cell, and it never
/// counts more of anything than it has cells.
pub proof fn lemma_count_bounds(cells: Seq<Option<Color>>, counted: Option<Color>)
    ensures
        count_of(cells, counted) <= cells.len(),
        is_full(cells) <==> count_of(cells, None) == 0,
    decreases cells.len(),
{
    if cells.len() > 0 {
        let front = cells.drop_last();
        lemma_count_bounds(front, counted);
        lemma_count_bounds(front, None);
        if is_full(cells) {
            assert forall|i: int| 0 <= i < front.len() implies (#[trigger] front[i]) is Some by {
                assert(cells[i] is Some);
            }
        }
        if count_of(cells, None) == 0 {
            assert forall|i: int| 0 <= i < cells.len() implies (#[trigger] cells[i]) is Some by {
                if i < front.len() {
                    assert(front[i] is Some);
                }
            }
        }
    }
}

/// The legal actions of a position are its empty cells, each once, in
/// strictly ascending order, and there are as many as the board counts
/// empty cells.
pub proof fn lemma_legal_actions(p: Position)
    requires
        p.wf(),
    ensures
        forall|action: usize| p.legal_actions().contains(action) <==> p.legal(action as int),
        forall|i: int, j: int|
            0 <= i < j < p.legal_actions().len() ==> p.legal_actions()[i] < p.legal_actions()[j],
        p.legal_actions().len() == count_of(p.cells, None),
{
    lemma_empties_below(p.cells, 9);
    lemma_empties_count(p.cells, 9);
    assert(p.cells.take(9) =~= p.cells);
}

/// As many empty cells are listed among the first `n` as the first `n`
/// cells count.
proof fn lemma_empties_count(cells: Seq<Option<Color>>, n: int)
    requires
        0 <= n <= cells.len(),
    ensures
        empties_below(cells, n).len() == count_of(cells.take(n), None),
    decreases n,
{
    if n > 0 {
        lemma_empties_count(cells, n - 1);
        assert(cells.take(n).drop_last() =~= cells.take(n - 1));
    }
}

/// The initial position is well formed, its marks agree with the turn, all
/// nine cells are empty and so every action is legal, its key is zero, and
/// the game is in progress.
pub proof fn lemma_initial()
    ensures
        Position::initial().wf(),
        Position::initial().turn_consistent(),
        count_of(Position::initial().cells, None) == 9,
        Position::initial().legal_actions() == seq![0usize, 1, 2, 3, 4, 5, 6, 7, 8],
        Position::initial().key() == 0,
        Position::initial().outcome() == (GameResult { has_ended: false, winner: None }),
{
    let p = Position::initial();
    assert(p.legal_actions() =~= seq![0usize, 1, 2, 3, 4, 5, 6, 7, 8]) by {
        reveal_with_fuel(empties_below, 10);
    }
    lemma_count_uniform(p.cells, None, None);
    lemma_count_uniform(p.cells, None, Some(Color::X));
    lemma_count_uniform(p.cells, None, Some(Color::O));
    lemma_first_owner(p.cells, 0);
    assert(p.cells[0] is None);
    reveal_with_fuel(encode, 10);
}

/// A legal move keeps the position well formed and its marks in agreement
/// with the turn, fills one empty cell, and leaves every other cell as it
/// was: the legal actions afterwards are those before but the one taken.
pub proof fn lemma_play(p: Position, action: int)
    requires
        p.wf(),
        p.legal(action),
    ensures
        p.play(action).wf(),
        p.turn_consistent() ==> p.play(action).turn_consistent(),
        count_of(p.play(action).cells, None) + 1 == count_of(p.cells, None),
        forall|other: int| p.play(action).legal(other) <==> p.legal(other) && other != action,
        p.play(action).cells[action] == Some(p.to_move),
        forall|i: int| 0 <= i < 9 && i != action ==> p.play(action).cells[i] == p.cells[i],
{
    lemma_count_update(p.cells, action, Some(p.to_move), None);
    lemma_count_update(p.cells, action, Some(p.to_move), Some(Color::X));
    lemma_count_update(p.cells, action, Some(p.to_move), Some(Color::O));
}

/// A move wins only for the one who makes it: where no line was owned
/// before a legal move, every line owned after it belongs to the mover, so
/// the result is a win of the mover or no win at all.
pub proof fn lemma_only_the_mover_wins(p: Position, action: int)
    requires
        p.wf(),
        p.legal(action),
        p.winner() is None,
    ensures
        forall|k: int|
            0 <= k < 8 && line_owner(p.play(action).cells, k) is Some ==> line_owner(
                p.play(action).cells,
                k,
            ) == Some(p.to_move),
        p.play(action).winner() is None || p.play(action).winner() == Some(p.to_move),
{
    lemma_first_owner(p.cells, 0);
    lemma_first_owner(p.play(action).cells, 0);
    let after = p.play(action).cells;
    assert forall|k: int| 0 <= k < 8 && line_owner(after, k) is Some implies line_owner(after, k)
        == Some(p.to_move) by {
        assert(line_owner(p.cells, k) is None);
    }
}

/// Writing into cell `i` changes the encoding by the difference of the
/// digits at the weight of the cell, `3^i`.
pub proof fn lemma_encode_update(cells: Seq<Option<Color>>, i: int, content: Option<Color>)
    requires
        0 <= i < cells.len(),
    ensures
        encode(cells.update(i, content)) + pow3(i as nat) * digit(cells[i]) == encode(cells) + pow3(
            i as nat,
        ) * digit(content),
    decreases cells.len(),
{
    let updated = cells.update(i, content);
    if i == 0 {
        assert(updated.drop_first() =~= cells.drop_first());
        assert(pow3(0) * digit(cells[0]) == digit(cells[0]));
        assert(pow3(0) * digit(content) == digit(content));
    } else {
        let rest = cells.drop_first();
        lemma_encode_update(rest, i - 1, content);
        assert(updated.drop_first() =~= rest.update(i - 1, content));
        assert(rest[i - 1] == cells[i]);
        let w = pow3((i - 1) as nat);
        assert(pow3(i as nat) == 3 * w);
        assert(3 * (w * digit(cells[i])) == pow3(i as nat) * digit(cells[i])) by (nonlinear_arith)
            requires
                pow3(i as nat) == 3 * w,
        ;
        assert(3 * (w * digit(content)) == pow3(i as nat) * digit(content)) by (nonlinear_arith)
            requires
                pow3(i as nat) == 3 * w,
        ;
    }
}

/// A legal move raises the key by the mover's digit at the weight of the
/// cell: by `3^action` for `X` and by twice that for `O`.
pub proof fn lemma_play_key(p: Position, action: int)
    requires
        p.wf(),
        p.legal(action),
    ensures
        p.play(action).key() == p.key() + pow3(action as nat) * digit(Some(p.to_move)),
{
    lemma_encode_update(p.cells, action, Some(p.to_move));
    assert(pow3(action as nat) * digit(p.cells[action]) == 0) by (nonlinear_arith)
        requires
            digit(p.cells[action]) == 0,
    ;
}

/// A run of legal moves keeps the position well formed and its marks in
/// agreement with the turn, and fills one empty cell with each move.
pub proof fn lemma_play_all(p: Position, actions: Seq<usize>)
    requires
        p.wf(),
        p.legal_run(actions),
    ensures
        p.play_all(actions).wf(),
        p.turn_consistent() ==> p.play_all(actions).turn_consistent(),
        count_of(p.play_all(actions).cells, None) + actions.len() == count_of(p.cells, None),
    decreases actions.len(),
{
    if actions.len() > 0 {
        lemma_play(p, actions[0] as int);
        lemma_play_all(p.play(actions[0] as int), actions.drop_first());
    }
}

/// No game lasts longer than nine moves: a run of legal moves from the
/// initial position has at most nine of them, and after the ninth the game
/// is over.
pub proof fn lemma_game_length(actions: Seq<usize>)
    requires
        Position::initial().legal_run(actions),
    ensures
        actions.len() <= 9,
        actions.len() == 9 ==> Position::initial().play_all(actions).outcome().has_ended,
        Position::initial().play_all(actions).turn_consistent(),
{
    lemma_initial();
    lemma_play_all(Position::initial(), actions);
    lemma_count_bounds(Position::initial().play_all(actions).cells, None);
}

/// Among positions whose marks agree with the turn, as all positions of a
/// game do, the key tells the whole position: the board and the mark to
/// move.
pub proof fn lemma_key_tells_position(p: Position, q: Position)
    requires
        p.wf(),
        q.wf(),
        p.turn_consistent(),
        q.turn_consistent(),
        p.key() == q.key(),
    ensures
        p == q,
{
    lemma_encode_injective(p.cells, q.cells);
}

/// Two games that have come to the same key have come to the same
/// position: no two positions of a game share a key.
pub proof fn lemma_games_share_no_key(first: Seq<usize>, second: Seq<usize>)
    requires
        Position::initial().legal_run(first),
        Position::initial().legal_run(second),
        Position::initial().play_all(first).key() == Position::initial().play_all(second).key(),
    ensures
        Position::initial().play_all(first) == Position::initial().play_all(second),
{
    lemma_initial();
    lemma_play_all(Position::initial(), first);
    lemma_play_all(Position::initial(), second);
    lemma_key_tells_position(
        Position::initial().play_all(first),
        Position::initial().play_all(second),
    );
}

/// A position with no legal action left is over.
pub proof fn lemma_no_action_ends_game(p: Position)
    requires
        p.wf(),
        forall|action: int| !p.legal(action),
    ensures
        p.outcome().has_ended,
{
    assert forall|i: int| 0 <= i < p.cells.len() implies (#[trigger] p.cells[i]) is Some by {
        assert(!p.legal(i));
    }
}

} // verus!
