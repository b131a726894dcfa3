//! The canonical key of a board: its cells read as the digits of a number
//! in base 3, cell `i` carrying the weight `3^i`.

use vstd::prelude::*;
use crate::color::Color;

verus! {

/// The number of boards, `3^9`.
pub const BOARD_KEYS: u16 = 19683;

/// The base-3 digit of a cell: 0 for empty, 1 for `X`, 2 for `O`.
pub open spec fn digit(cell: Option<Color>) -> nat {
    match cell {
        None => 0,
        Some(Color::X) => 1,
        Some(Color::O) => 2,
    }
}

/// The cell that a base-3 digit stands for.
pub open spec fn cell_of(digit: nat) -> Option<Color> {
    if digit == 0 {
        None
    } else if digit == 1 {
        Some(Color::X)
    } else {
        Some(Color::O)
    }
}

/// `3^n`.
pub open spec fn pow3(n: nat) -> nat
    decreases n,
{
    if n == 0 {
        1
    } else {
        3 * pow3((n - 1) as nat)
    }
}

/// The cells as a number in base 3, least significant digit first.
pub open spec fn encode(cells: Seq<Option<Color>>) -> nat
    decreases cells.len(),
{
    if cells.len() == 0 {
        0
    } else {
        digit(cells[0]) + 3 * encode(cells.drop_first())
    }
}

/// The `n` cells whose encoding is `key`, for a key below `3^n`.
pub open spec fn decode(key: nat, n: nat) -> Seq<Option<Color>>
    decreases n,
{
    if n == 0 {
        Seq::empty()
    } else {
        seq![cell_of(key % 3)] + decode(key / 3, (n - 1) as nat)
    }
}

/// An encoding of `n` cells lies below `3^n`.
pub proof fn lemma_encode_bound(cells: Seq<Option<Color>>)
    ensures
        encode(cells) < pow3(cells.len()),
    decreases cells.len(),
{
    if cells.len() > 0 {
        lemma_encode_bound(cells.drop_first());
    }
}

/// Two boards of one length with the same encoding are the same board.
pub proof fn lemma_encode_injective(a: Seq<Option<Color>>, b: Seq<Option<Color>>)
    requires
        a.len() == b.len(),
        encode(a) == encode(b),
    ensures
        a == b,
    decreases a.len(),
{
    if a.len() > 0 {
        let (ra, rb) = (a.drop_first(), b.drop_first());
        assert(digit(a[0]) == encode(a) % 3);
        assert(digit(b[0]) == encode(b) % 3);
        assert(encode(ra) == encode(rb));
        lemma_encode_injective(ra, rb);
        assert forall|i: int| 0 <= i < a.len() implies a[i] == b[i] by {
            if i > 0 {
                assert(a[i] == ra[i - 1]);
                assert(b[i] == rb[i - 1]);
            }
        }
    }
    assert(a =~= b);
}

/// Decoding gives `n` cells, and encoding them gives the key back.
pub proof fn lemma_encode_decode(key: nat, n: nat)
    requires
        key < pow3(n),
    ensures
        decode(key, n).len() == n,
        encode(decode(key, n)) == key,
    decreases n,
{
    if n > 0 {
        let rest = decode(key / 3, (n - 1) as nat);
        lemma_encode_decode(key / 3, (n - 1) as nat);
        let cells = decode(key, n);
        assert(cells.drop_first() =~= rest);
        assert(cells[0] == cell_of(key % 3));
    }
}

/// Encoding then decoding gives the cells back.
pub proof fn lemma_decode_encode(cells: Seq<Option<Color>>)
    ensures
        decode(encode(cells), cells.len()) == cells,
    decreases cells.len(),
{
    if cells.len() > 0 {
        let rest = cells.drop_first();
        lemma_decode_encode(rest);
        let key = encode(cells);
        assert(key % 3 == digit(cells[0]));
        assert(key / 3 == encode(rest));
        assert(decode(key, cells.len()) =~= seq![cells[0]] + rest);
        assert(seq![cells[0]] + rest =~= cells);
    } else {
        assert(decode(encode(cells), cells.len()) =~= cells);
    }
}

/// One more cell at the end adds its digit at the next weight.
pub proof fn lemma_encode_push(cells: Seq<Option<Color>>, cell: Option<Color>)
    ensures
        encode(cells.push(cell)) == encode(cells) + pow3(cells.len()) * digit(cell),
    decreases cells.len(),
{
    let longer = cells.push(cell);
    let d = digit(cell);
    if cells.len() == 0 {
        assert(longer.drop_first() =~= Seq::<Option<Color>>::empty());
        assert(encode(longer) == d + 3 * encode(longer.drop_first()));
        assert(pow3(0) * d == d);
    } else {
        let rest = cells.drop_first();
        lemma_encode_push(rest, cell);
        assert(longer.drop_first() =~= rest.push(cell));
        assert(longer[0] == cells[0]);
        assert(pow3(cells.len()) == 3 * pow3(rest.len()));
        assert(3 * (pow3(rest.len()) * d) == pow3(cells.len()) * d) by (nonlinear_arith)
            requires
                pow3(cells.len()) == 3 * pow3(rest.len()),
        ;
        assert(encode(longer) == digit(cells[0]) + 3 * encode(rest.push(cell)));
    }
}

/// The key of a board written out: each cell's digit at the weight of the
/// cell.
pub proof fn lemma_encode_board(cells: Seq<Option<Color>>)
    requires
        cells.len() == 9,
    ensures
        encode(cells) == digit(cells[0]) + 3 * digit(cells[1]) + 9 * digit(cells[2]) + 27 * digit(
            cells[3],
        ) + 81 * digit(cells[4]) + 243 * digit(cells[5]) + 729 * digit(cells[6]) + 2187 * digit(
            cells[7],
        ) + 6561 * digit(cells[8]),
{
    lemma_pow3_values();
    assert(cells.take(0) =~= Seq::<Option<Color>>::empty());
    lemma_encode_step(cells, 0);
    lemma_encode_step(cells, 1);
    lemma_encode_step(cells, 2);
    lemma_encode_step(cells, 3);
    lemma_encode_step(cells, 4);
    lemma_encode_step(cells, 5);
    lemma_encode_step(cells, 6);
    lemma_encode_step(cells, 7);
    lemma_encode_step(cells, 8);
    assert(cells.take(9) =~= cells);
}

/// The first `i + 1` cells encode as the first `i` and the digit of cell
/// `i` at its weight.
pub proof fn lemma_encode_step(cells: Seq<Option<Color>>, i: int)
    requires
        0 <= i < cells.len(),
    ensures
        encode(cells.take(i + 1)) == encode(cells.take(i)) + pow3(i as nat) * digit(cells[i]),
{
    lemma_encode_push(cells.take(i), cells[i]);
    assert(cells.take(i).push(cells[i]) =~= cells.take(i + 1));
}

/// The weights of a board's nine cells, and the number of boards.
pub proof fn lemma_pow3_values()
    ensures
        pow3(0) == 1,
        pow3(1) == 3,
        pow3(2) == 9,
        pow3(3) == 27,
        pow3(4) == 81,
        pow3(5) == 243,
        pow3(6) == 729,
        pow3(7) == 2187,
        pow3(8) == 6561,
        pow3(9) == 19683,
{
    reveal_with_fuel(pow3, 10);
}

} // verus!
