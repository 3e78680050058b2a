//! Finding the cursor position that a terminal's output last asked for.

use vstd::prelude::*;

use crate::bytes::{
    fields, find_byte, lemma_fields_around, lemma_fields_joined, lemma_fields_of_one,
    lemma_first_field, DIGIT_0, DIGIT_9, ESC, OPEN_BRACKET, SEMICOLON, UPPER_H,
};
use crate::decimal::{
    decimal_digits, denotes, is_digit, law_decimal_round_trip, law_numbers_are_read,
    law_other_text_is_no_number, parse_u16_or, u16_or,
};

verus! {

/// How far back from its final `H` a sequence may begin.
pub const MAX_CUP_LEN: usize = 21;

/// A byte that may stand among the parameters of a sequence.
pub open spec fn is_parameter_byte(b: u8) -> bool {
    is_digit(b) || b == SEMICOLON
}

/// A cursor position sequence: `ESC [` at `start`, numbers and semicolons, and
/// an `H` at `end`, not too far from the start.
pub open spec fn is_cup(bytes: Seq<u8>, start: int, end: int) -> bool {
    &&& 0 <= start
    &&& start + 2 <= end < bytes.len()
    &&& end - start <= MAX_CUP_LEN
    &&& bytes[start] == ESC
    &&& bytes[start + 1] == OPEN_BRACKET
    &&& forall|k: int| start + 2 <= k < end ==> is_parameter_byte(#[trigger] bytes[k])
    &&& bytes[end] == UPPER_H
}

/// The last cursor position sequence.
pub open spec fn is_last_cup(bytes: Seq<u8>, start: int, end: int) -> bool {
    &&& is_cup(bytes, start, end)
    &&& forall|j: int, i: int| end < i ==> !#[trigger] is_cup(bytes, j, i)
}

/// A coordinate counted from zero, out of a field that counts from one. A
/// field that is missing or no number of 16 bits counts as one.
pub open spec fn coordinate(list: Seq<Seq<u8>>, k: int) -> u16 {
    let v = if k < list.len() {
        u16_or(list[k], 1)
    } else {
        1
    };
    if v == 0 {
        0
    } else {
        (v - 1) as u16
    }
}

/// The row and column that the parameters of a sequence give.
pub open spec fn cup_position(params: Seq<u8>) -> (u16, u16) {
    let list = fields(params, SEMICOLON);
    (coordinate(list, 0), coordinate(list, 1))
}

/// Reads the row and column out of the parameters of a sequence.
fn parse_position(params: &[u8]) -> (r: (u16, u16))
    ensures
        r == cup_position(params@),
{
    let n: usize = find_byte(params, SEMICOLON);
    let row: u16 = parse_u16_or(&params[0..n], 1);
    proof {
        lemma_first_field(params@, SEMICOLON);
        assert(params@.subrange(0, n as int) =~= params@.take(n as int));
    }
    let col: u16 = if n < params.len() {
        let rest: &[u8] = &params[n + 1..params.len()];
        let m: usize = find_byte(rest, SEMICOLON);
        proof {
            assert(rest@ =~= params@.skip(n + 1));
            lemma_first_field(rest@, SEMICOLON);
            assert(rest@.subrange(0, m as int) =~= rest@.take(m as int));
            if m == rest@.len() {
                assert(rest@.take(m as int) =~= rest@);
            }
            assert(fields(params@, SEMICOLON)[1] == fields(rest@, SEMICOLON)[0]);
        }
        parse_u16_or(&rest[0..m], 1)
    } else {
        assert(params@.take(n as int) =~= params@);
        1
    };
    (row.saturating_sub(1), col.saturating_sub(1))
}

/// Finds where the sequence that the `H` at `end` closes begins.
fn find_start(bytes: &[u8], end: usize) -> (r: Option<usize>)
    requires
        end < bytes@.len(),
        bytes@[end as int] == UPPER_H,
    ensures
        match r {
            Some(start) => is_cup(bytes@, start as int, end as int),
            None => forall|start: int| !#[trigger] is_cup(bytes@, start, end as int),
        },
{
    let mut k: usize = end;
    while k > 0 && ((DIGIT_0 <= bytes[k - 1] && bytes[k - 1] <= DIGIT_9) || bytes[k - 1]
        == SEMICOLON)
        invariant
            0 <= k <= end < bytes@.len(),
            forall|i: int| k <= i < end ==> is_parameter_byte(#[trigger] bytes@[i]),
        decreases k,
    {
        k = k - 1;
    }
    assert forall|start: int| #[trigger] is_cup(bytes@, start, end as int) implies start + 2
        == k by {
        if start + 2 < k {
            assert(is_parameter_byte(bytes@[k - 1]));
        } else if start + 2 > k {
            assert(is_parameter_byte(bytes@[start + 1]));
        }
    }
    if k >= 2 && bytes[k - 1] == OPEN_BRACKET && bytes[k - 2] == ESC && end - (k - 2)
        <= MAX_CUP_LEN {
        Some(k - 2)
    } else {
        None
    }
}

/// The row and column, counted from zero, of the last cursor position sequence
/// (`ESC [ row ; column H`, counted from one) in `bytes`. `None` where there is
/// no such sequence.
pub fn extract_last_cup(bytes: &[u8]) -> (r: Option<(u16, u16)>)
    ensures
        forall|start: int, end: int| #[trigger]
            is_last_cup(bytes@, start, end) ==> r == Some(
                cup_position(bytes@.subrange(start + 2, end)),
            ),
        r is None <==> forall|start: int, end: int| !#[trigger] is_cup(bytes@, start, end),
{
    let mut i: usize = bytes.len();
    while i > 0
        invariant
            0 <= i <= bytes@.len(),
            forall|start: int, end: int| i <= end ==> !#[trigger] is_cup(bytes@, start, end),
        decreases i,
    {
        i = i - 1;
        if bytes[i] == UPPER_H {
            match find_start(bytes, i) {
                Some(j) => {
                    proof {
                        lemma_last_cup_unique(bytes@, j as int, i as int);
                    }
                    return Some(parse_position(&bytes[j + 2..i]));
                },
                None => {},
            }
        }
    }
    None
}

/// No two sequences are both the last one.
proof fn lemma_last_cup_unique(bytes: Seq<u8>, start: int, end: int)
    requires
        is_last_cup(bytes, start, end),
    ensures
        forall|j: int, i: int| #[trigger] is_last_cup(bytes, j, i) ==> j == start && i == end,
{
    assert forall|j: int, i: int| #[trigger] is_last_cup(bytes, j, i) implies j == start && i
        == end by {
        assert(is_cup(bytes, j, i));
        assert(i == end);
        if j < start {
            assert(bytes[j + 1] == OPEN_BRACKET);
            assert(is_parameter_byte(bytes[start]));
        } else if start < j {
            assert(bytes[start + 1] == OPEN_BRACKET);
            assert(is_parameter_byte(bytes[j]));
        }
    }
}

/// Where there is a sequence at all, one of them is the last.
pub proof fn law_some_cup_is_last(bytes: Seq<u8>, start: int, end: int)
    requires
        is_cup(bytes, start, end),
    ensures
        exists|j: int, i: int| #[trigger] is_last_cup(bytes, j, i),
    decreases bytes.len() - end,
{
    if exists|j: int, i: int| end < i && #[trigger] is_cup(bytes, j, i) {
        let (j, i) = choose|j: int, i: int| end < i && #[trigger] is_cup(bytes, j, i);
        law_some_cup_is_last(bytes, j, i);
    } else {
        assert(is_last_cup(bytes, start, end));
    }
}

/// No number of 16 bits has more than five digits.
proof fn lemma_digits_of_u16(n: nat)
    requires
        n <= 0xffff,
    ensures
        decimal_digits(n).len() <= 5,
{
    reveal_with_fuel(decimal_digits, 5);
}

/// The parameters that ask for a row and a column, both counted from zero here.
pub open spec fn cup_params(row: u16, col: u16) -> Seq<u8> {
    decimal_digits((row + 1) as nat).push(SEMICOLON) + decimal_digits((col + 1) as nat)
}

/// The sequence that asks for a row and a column.
pub open spec fn cup_sequence(row: u16, col: u16) -> Seq<u8> {
    seq![ESC, OPEN_BRACKET] + cup_params(row, col) + seq![UPPER_H]
}

/// A cursor position that was asked for is found again, whatever comes before
/// it, and whatever comes after it that holds no other such sequence.
pub proof fn law_cup_round_trip(before: Seq<u8>, row: u16, col: u16, after: Seq<u8>)
    requires
        row < 0xffff,
        col < 0xffff,
        forall|j: int, i: int| !#[trigger] is_cup(after, j, i),
    ensures
        ({
            let bytes = before + cup_sequence(row, col) + after;
            let start = before.len() as int;
            let end = start + cup_sequence(row, col).len() - 1;
            &&& is_last_cup(bytes, start, end)
            &&& bytes.subrange(start + 2, end) == cup_params(row, col)
            &&& cup_position(bytes.subrange(start + 2, end)) == (row, col)
        }),
{
    let bytes = before + cup_sequence(row, col) + after;
    let start = before.len() as int;
    let end = start + cup_sequence(row, col).len() - 1;
    let params = cup_params(row, col);
    let r = decimal_digits((row + 1) as nat);
    let c = decimal_digits((col + 1) as nat);
    law_decimal_round_trip((row + 1) as nat);
    law_decimal_round_trip((col + 1) as nat);
    lemma_digits_of_u16((row + 1) as nat);
    lemma_digits_of_u16((col + 1) as nat);
    assert(bytes.subrange(start + 2, end) =~= params);

    assert forall|k: int| start + 2 <= k < end implies is_parameter_byte(#[trigger] bytes[k]) by {
        let i = k - start - 2;
        assert(bytes[k] == params[i]);
        if i < r.len() {
            assert(params[i] == r[i]);
        } else if i > r.len() {
            assert(params[i] == c[i - r.len() - 1]);
        }
    }
    assert(bytes[start] == ESC && bytes[start + 1] == OPEN_BRACKET && bytes[end] == UPPER_H);
    assert(is_cup(bytes, start, end));
    assert forall|j: int, i: int| end < i implies !#[trigger] is_cup(bytes, j, i) by {
        if is_cup(bytes, j, i) {
            lemma_sequence_does_not_span(bytes, j, i, end);
            assert(after =~= bytes.skip(end + 1));
            assert(is_cup(after, j - end - 1, i - end - 1)) by {
                assert forall|k: int| j - end - 1 + 2 <= k < i - end
                    - 1 implies is_parameter_byte(#[trigger] after[k]) by {
                    assert(is_parameter_byte(bytes[k + end + 1]));
                }
            }
        }
    }

    assert(!r.contains(SEMICOLON));
    assert(!c.contains(SEMICOLON));
    lemma_fields_of_one(r, SEMICOLON);
    lemma_fields_joined(r, c, SEMICOLON);
    assert(fields(params, SEMICOLON) =~= seq![r, c]);
}

/// Of two parts of the output, the later one decides, if it asks for a position.
pub proof fn law_later_cup_counts(a: Seq<u8>, b: Seq<u8>, start: int, end: int)
    requires
        is_last_cup(b, start, end),
    ensures
        is_last_cup(a + b, a.len() + start, a.len() + end),
        (a + b).subrange(a.len() + start + 2, a.len() + end) == b.subrange(start + 2, end),
{
    let n = a.len() as int;
    let ab = a + b;
    assert forall|k: int| n + start + 2 <= k < n + end implies is_parameter_byte(
        #[trigger] ab[k],
    ) by {
        assert(ab[k] == b[k - n]);
    }
    assert(is_cup(ab, n + start, n + end));
    assert forall|j: int, i: int| n + end < i implies !#[trigger] is_cup(ab, j, i) by {
        if is_cup(ab, j, i) {
            lemma_sequence_does_not_span(ab, j, i, n + end);
            assert(is_cup(b, j - n, i - n)) by {
                assert forall|k: int| j - n + 2 <= k < i - n implies is_parameter_byte(
                    #[trigger] b[k],
                ) by {
                    assert(is_parameter_byte(ab[k + n]));
                }
            }
        }
    }
    assert(ab.subrange(n + start + 2, n + end) =~= b.subrange(start + 2, end));
}

/// A sequence that ends after an `H` begins after it, too.
proof fn lemma_sequence_does_not_span(bytes: Seq<u8>, start: int, end: int, h: int)
    requires
        is_cup(bytes, start, end),
        0 <= h < end,
        bytes[h] == UPPER_H,
    ensures
        h < start,
{
    if start + 2 <= h {
        assert(is_parameter_byte(bytes[h]));
    }
}

/// `ESC [`, at most nineteen digits and semicolons, and an `H` make a sequence,
/// wherever they stand; it is the last one where none comes after it.
pub proof fn law_sequence_is_found(before: Seq<u8>, params: Seq<u8>, after: Seq<u8>)
    requires
        params.len() <= 19,
        forall|k: int|
            0 <= k < params.len() ==> 0x30 <= #[trigger] params[k] <= 0x39 || params[k] == 0x3b,
    ensures
        ({
            let bytes = before + (seq![0x1b, 0x5b] + params + seq![0x48]) + after;
            let start = before.len() as int;
            let end = start + 2 + params.len();
            &&& is_cup(bytes, start, end)
            &&& bytes.subrange(start + 2, end) == params
            &&& !after.contains(0x48) ==> is_last_cup(bytes, start, end)
        }),
{
    let bytes = before + (seq![0x1b, 0x5b] + params + seq![0x48]) + after;
    let start = before.len() as int;
    let end = start + 2 + params.len();
    assert(bytes.subrange(start + 2, end) =~= params);
    assert forall|k: int| start + 2 <= k < end implies is_parameter_byte(#[trigger] bytes[k]) by {
        assert(bytes[k] == params[k - start - 2]);
    }
    assert(bytes[start] == 0x1b && bytes[start + 1] == 0x5b && bytes[end] == 0x48);
    if !after.contains(0x48) {
        assert forall|j: int, i: int| end < i implies !#[trigger] is_cup(bytes, j, i) by {
            if is_cup(bytes, j, i) {
                assert(bytes[i] == after[i - end - 1]);
            }
        }
    }
}

/// A sequence is nothing but `ESC [`, at most nineteen digits and semicolons,
/// and an `H`.
pub proof fn law_sequence_shape(bytes: Seq<u8>, start: int, end: int)
    requires
        is_cup(bytes, start, end),
    ensures
        0 <= start,
        end < bytes.len(),
        2 <= end - start <= 21,
        bytes[start] == 0x1b,
        bytes[start + 1] == 0x5b,
        bytes[end] == 0x48,
        forall|k: int|
            start + 2 <= k < end ==> 0x30 <= #[trigger] bytes[k] <= 0x39 || bytes[k] == 0x3b,
{
    assert forall|k: int| start + 2 <= k < end implies 0x30 <= #[trigger] bytes[k] <= 0x39
        || bytes[k] == 0x3b by {
        assert(is_parameter_byte(bytes[k]));
    }
}

/// The last sequence ends after every other one.
pub proof fn law_last_sequence_is_last(bytes: Seq<u8>, start: int, end: int, j: int, i: int)
    requires
        is_last_cup(bytes, start, end),
        is_cup(bytes, j, i),
    ensures
        is_cup(bytes, start, end),
        i < end || (j == start && i == end),
{
    assert(i <= end);
    if i == end {
        assert forall|b: int, a: int| i < a implies !#[trigger] is_cup(bytes, b, a) by {}
        assert(is_last_cup(bytes, j, i));
        lemma_last_cup_unique(bytes, start, end);
    }
}

/// A number in a sequence counts from one, and is taken as a coordinate that
/// counts from zero; zero, a number that does not fit in 16 bits, and an empty
/// field stand for the first row or column. The row comes first and the column
/// second; without a second field the column is the first, and further fields
/// mean nothing.
pub proof fn law_position_of_fields(
    row: Seq<u8>,
    n: nat,
    col: Seq<u8>,
    m: nat,
    more: Seq<u8>,
)
    requires
        row.len() == 0 && n == 1 || denotes(row, n),
        col.len() == 0 && m == 1 || denotes(col, m),
    ensures
        ({
            let r: int = if 1 <= n <= 0xffff {
                n - 1
            } else {
                0
            };
            let c: int = if 1 <= m <= 0xffff {
                m - 1
            } else {
                0
            };
            let two = row + seq![0x3b] + col;
            &&& cup_position(row).0 == r
            &&& cup_position(row).1 == 0
            &&& cup_position(two).0 == r
            &&& cup_position(two).1 == c
            &&& cup_position(two + seq![0x3b] + more).0 == r
            &&& cup_position(two + seq![0x3b] + more).1 == c
        }),
{
    let two = row + seq![0x3b] + col;
    lemma_field_value(row, n);
    lemma_field_value(col, m);
    lemma_fields_of_one(row, SEMICOLON);
    assert(two =~= row.push(SEMICOLON) + col);
    lemma_fields_joined(row, col, SEMICOLON);
    assert(fields(two, SEMICOLON) =~= seq![row, col]);
    assert(two + seq![0x3b] + more =~= two.push(SEMICOLON) + more);
    lemma_fields_around(two, more, SEMICOLON);
    let all = fields(two + seq![0x3b] + more, SEMICOLON);
    assert(all[0] == row);
    assert(all[1] == col);
}

/// A field of digits, or an empty one, holds no semicolon and is read as it stands.
proof fn lemma_field_value(s: Seq<u8>, n: nat)
    requires
        s.len() == 0 && n == 1 || denotes(s, n),
    ensures
        !s.contains(SEMICOLON),
        u16_or(s, 1) == if n <= 0xffff {
            n as int
        } else {
            1
        },
{
    if s.len() == 0 {
        law_other_text_is_no_number(s, 0, 1);
    } else {
        law_numbers_are_read(s, n, 1);
    }
}

/// A position is asked for as `ESC [`, the row, `;`, the column and `H`, both
/// counted from one.
pub proof fn law_sequence_bytes(row: u16, col: u16)
    ensures
        cup_sequence(row, col) == seq![0x1b, 0x5b] + cup_params(row, col) + seq![0x48],
        cup_params(row, col) == decimal_digits((row + 1) as nat) + seq![0x3b] + decimal_digits(
            (col + 1) as nat,
        ),
{
    assert(cup_params(row, col) =~= decimal_digits((row + 1) as nat) + seq![0x3b] + decimal_digits(
        (col + 1) as nat,
    ));
}

} // verus!
