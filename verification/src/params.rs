//! The parameters of a graphics command: `key=value` pairs between commas.

use vstd::prelude::*;

use crate::bytes::{
    fields, lemma_fields_joined, lemma_fields_of_one, COMMA, DIGIT_0, DIGIT_1, EQUALS, LOWER_A, LOWER_D, LOWER_F,
    LOWER_I, LOWER_M, LOWER_Q, LOWER_S, LOWER_T, LOWER_V, LOWER_Z, UPPER_C, UPPER_T, UPPER_U,
};
use crate::decimal::{
    decimal_digits, i32_or_zero, law_digits_in_place, law_numbers_are_read, parse_i32, parse_u32,
    u32_or_zero,
};

verus! {

/// The parsed parameters of a command.
#[derive(Debug, Clone, Copy, PartialEq, Eq, Structural)]
pub struct KittyParams {
    /// `a`: `t` transmits, `T` transmits and displays, `p` places, `d` deletes, `q` queries.
    pub action: u8,
    /// `f`: 24 is RGB, 32 is RGBA, 100 is PNG.
    pub format: u32,
    /// `s`: width in pixels.
    pub width: u32,
    /// `v`: height in pixels.
    pub height: u32,
    /// `i`: which image.
    pub image_id: u32,
    /// `m`: 1 where more chunks follow.
    pub more_chunks: bool,
    /// `q`: 0 answers always, 1 is quiet on success, 2 is quiet always.
    pub quiet: u8,
    /// `t`: `d` is direct, `f` a file, `t` a temporary file.
    pub transmission: u8,
    /// `C`: 0 moves the cursor, which is the default, and 1 does not.
    pub cursor_move: bool,
    /// `U`: 1 places by Unicode placeholders.
    pub unicode_place: bool,
    /// `d`: `a` or `A` deletes all, `i` or `I` one image.
    pub delete_what: u8,
    /// `z`: the layer.
    pub z_index: i32,
}

impl Default for KittyParams {
    fn default() -> (r: Self)
        ensures
            r == no_params(),
            r.action == 0,
            !r.cursor_move,
    {
        KittyParams {
            action: 0,
            format: 0,
            width: 0,
            height: 0,
            image_id: 0,
            more_chunks: false,
            quiet: 0,
            transmission: 0,
            cursor_move: false,
            unicode_place: false,
            delete_what: 0,
            z_index: 0,
        }
    }
}

/// Every parameter zero or off.
pub open spec fn no_params() -> KittyParams {
    KittyParams {
        action: 0,
        format: 0,
        width: 0,
        height: 0,
        image_id: 0,
        more_chunks: false,
        quiet: 0,
        transmission: 0,
        cursor_move: false,
        unicode_place: false,
        delete_what: 0,
        z_index: 0,
    }
}

/// `field` is a `key=value` pair for `key`, with a value of at least one byte.
pub open spec fn is_pair(field: Seq<u8>, key: u8) -> bool {
    field.len() >= 3 && field[0] == key && field[1] == EQUALS
}

/// The value of the last pair for `key`.
pub open spec fn last_value(list: Seq<Seq<u8>>, key: u8) -> Option<Seq<u8>>
    decreases list.len(),
{
    if list.len() == 0 {
        None
    } else if is_pair(list.last(), key) {
        Some(list.last().skip(2))
    } else {
        last_value(list.drop_last(), key)
    }
}

/// The first byte of the last value for `key`.
pub open spec fn byte_param(list: Seq<Seq<u8>>, key: u8, default: u8) -> u8 {
    match last_value(list, key) {
        Some(v) => v[0],
        None => default,
    }
}

/// The last value for `key` starts with `on`.
pub open spec fn flag_param(list: Seq<Seq<u8>>, key: u8, on: u8) -> bool {
    match last_value(list, key) {
        Some(v) => v[0] == on,
        None => false,
    }
}

/// The last value for `key` as a number; zero where it is none.
pub open spec fn number_param(list: Seq<Seq<u8>>, key: u8) -> u32 {
    match last_value(list, key) {
        Some(v) => u32_or_zero(v),
        None => 0,
    }
}

/// How far a byte lies above the digit zero; below it, the count wraps round.
pub open spec fn digit_offset(b: u8) -> u8 {
    if b >= DIGIT_0 {
        (b - DIGIT_0) as u8
    } else {
        (b - DIGIT_0 + 0x100) as u8
    }
}

/// The parameters that a list of fields gives. A field that is no pair says
/// nothing, and of two pairs for one key the later counts.
pub open spec fn params_of(list: Seq<Seq<u8>>) -> KittyParams {
    KittyParams {
        action: byte_param(list, LOWER_A, UPPER_T),
        format: number_param(list, LOWER_F),
        width: number_param(list, LOWER_S),
        height: number_param(list, LOWER_V),
        image_id: number_param(list, LOWER_I),
        more_chunks: flag_param(list, LOWER_M, DIGIT_1),
        quiet: digit_offset(byte_param(list, LOWER_Q, DIGIT_0)),
        transmission: byte_param(list, LOWER_T, 0),
        cursor_move: match last_value(list, UPPER_C) {
            Some(v) => v[0] == DIGIT_0,
            None => true,
        },
        unicode_place: flag_param(list, UPPER_U, DIGIT_1),
        delete_what: byte_param(list, LOWER_D, 0),
        z_index: match last_value(list, LOWER_Z) {
            Some(v) => i32_or_zero(v),
            None => 0,
        },
    }
}

/// The parameters in the text of a command.
pub open spec fn parsed(text: Seq<u8>) -> KittyParams {
    params_of(fields(text, COMMA))
}

impl KittyParams {
    /// Parses the text of a command before its `;`.
    pub fn parse(params_str: &[u8]) -> (r: Self)
        ensures
            r == parsed(params_str@),
    {
        let mut p: KittyParams = KittyParams::default();
        p.action = UPPER_T;
        p.cursor_move = true;
        let mut start: usize = 0;
        let mut i: usize = 0;
        let ghost s = params_str@;
        proof {
            assert(s.take(0) =~= Seq::<u8>::empty());
            assert(fields(s.take(0), COMMA).drop_last() =~= Seq::<Seq<u8>>::empty());
            assert(fields(s.take(0), COMMA).last() =~= s.subrange(0, 0));
        }
        while i < params_str.len()
            invariant
                s == params_str@,
                0 <= start <= i <= s.len(),
                fields(s.take(i as int), COMMA).len() > 0,
                fields(s.take(i as int), COMMA).last() == s.subrange(start as int, i as int),
                p == params_of(fields(s.take(i as int), COMMA).drop_last()),
            decreases s.len() - i,
        {
            let ghost before = fields(s.take(i as int), COMMA);
            let ghost after = fields(s.take(i + 1), COMMA);
            assert(s.take(i + 1).drop_last() =~= s.take(i as int));
            if params_str[i] == COMMA {
                p.apply_field(&params_str[start..i], Ghost(before.drop_last()));
                start = i + 1;
                assert(after.drop_last() =~= before);
                assert(before.drop_last().push(before.last()) =~= before);
                assert(after.last() =~= s.subrange(start as int, i + 1));
            } else {
                assert(after.drop_last() =~= before.drop_last());
                assert(after.last() =~= s.subrange(start as int, i + 1));
            }
            i = i + 1;
        }
        let ghost all = fields(s, COMMA);
        assert(s.take(i as int) =~= s);
        p.apply_field(&params_str[start..i], Ghost(all.drop_last()));
        assert(all.drop_last().push(all.last()) =~= all);
        p
    }

    /// Takes one more field into account, after those in `list`.
    fn apply_field(&mut self, pair: &[u8], list: Ghost<Seq<Seq<u8>>>)
        requires
            *old(self) == params_of(list@),
        ensures
            *final(self) == params_of(list@.push(pair@)),
    {
        let ghost next = list@.push(pair@);
        assert(next.drop_last() =~= list@);
        if pair.len() < 3 || pair[1] != EQUALS {
            return;
        }
        let key: u8 = pair[0];
        let val: &[u8] = &pair[2..pair.len()];
        assert(val@ =~= pair@.skip(2));
        if key == LOWER_A {
            self.action = val[0];
        } else if key == LOWER_F {
            self.format = parse_u32(val);
        } else if key == LOWER_S {
            self.width = parse_u32(val);
        } else if key == LOWER_V {
            self.height = parse_u32(val);
        } else if key == LOWER_I {
            self.image_id = parse_u32(val);
        } else if key == LOWER_M {
            self.more_chunks = val[0] == DIGIT_1;
        } else if key == LOWER_Q {
            self.quiet = val[0].wrapping_sub(DIGIT_0);
        } else if key == LOWER_T {
            self.transmission = val[0];
        } else if key == UPPER_C {
            self.cursor_move = val[0] == DIGIT_0;
        } else if key == UPPER_U {
            self.unicode_place = val[0] == DIGIT_1;
        } else if key == LOWER_D {
            self.delete_what = val[0];
        } else if key == LOWER_Z {
            self.z_index = parse_i32(val);
        }
    }
}

/// The keys that mean something.
pub open spec fn is_key(b: u8) -> bool {
    ||| b == LOWER_A
    ||| b == LOWER_F
    ||| b == LOWER_S
    ||| b == LOWER_V
    ||| b == LOWER_I
    ||| b == LOWER_M
    ||| b == LOWER_Q
    ||| b == LOWER_T
    ||| b == UPPER_C
    ||| b == UPPER_U
    ||| b == LOWER_D
    ||| b == LOWER_Z
}

/// A field that is no pair for a known key changes nothing.
pub proof fn law_other_fields_ignored(text: Seq<u8>, field: Seq<u8>)
    requires
        !field.contains(COMMA),
        forall|key: u8| #[trigger] is_pair(field, key) ==> !is_key(key),
    ensures
        parsed(text.push(COMMA) + field) == parsed(text),
{
    lemma_fields_joined(text, field, COMMA);
    let list = fields(text, COMMA);
    assert(list.push(field).drop_last() =~= list);
    assert forall|key: u8| is_key(key) implies #[trigger] last_value(list.push(field), key)
        == last_value(list, key) by {
        assert(!is_pair(field, key));
    }
}

/// A pair at the end decides its own key, whatever stood before it, and no other.
pub proof fn law_later_pair_counts(text: Seq<u8>, key: u8, pair: Seq<u8>)
    requires
        is_pair(pair, key),
        !pair.contains(COMMA),
    ensures
        last_value(fields(text.push(COMMA) + pair, COMMA), key) == Some(pair.skip(2)),
        forall|other: u8|
            other != key ==> #[trigger] last_value(fields(text.push(COMMA) + pair, COMMA), other)
                == last_value(fields(text, COMMA), other),
{
    lemma_fields_joined(text, pair, COMMA);
    assert(fields(text, COMMA).push(pair).drop_last() =~= fields(text, COMMA));
}

/// Without a pair, a command transmits and displays, moves the cursor, and has
/// every other parameter zero or off.
pub proof fn law_no_pairs()
    ensures
        ({
            let p = parsed(Seq::empty());
            &&& p.action == 0x54
            &&& p.format == 0
            &&& p.width == 0
            &&& p.height == 0
            &&& p.image_id == 0
            &&& !p.more_chunks
            &&& p.quiet == 0
            &&& p.transmission == 0
            &&& p.cursor_move
            &&& !p.unicode_place
            &&& p.delete_what == 0
            &&& p.z_index == 0
        }),
{
    let list = fields(Seq::empty(), COMMA);
    assert(list.last() =~= Seq::<u8>::empty());
    assert(list.drop_last() =~= Seq::<Seq<u8>>::empty());
    assert forall|key: u8| #[trigger] last_value(list, key) is None by {
        assert(last_value(list.drop_last(), key) is None);
    }
}

/// The first field counts as one that comes after nothing.
pub proof fn law_first_field(field: Seq<u8>)
    requires
        !field.contains(0x2c),
    ensures
        parsed(field) == parsed(seq![0x2c] + field),
{
    let none = Seq::<u8>::empty();
    lemma_fields_of_one(field, COMMA);
    lemma_fields_of_one(none, COMMA);
    lemma_fields_joined(none, field, COMMA);
    assert(seq![0x2cu8] + field =~= none.push(COMMA) + field);
    let one = seq![field];
    let two = seq![none, field];
    assert(fields(seq![0x2c] + field, COMMA) =~= two);
    assert(one.drop_last() =~= Seq::<Seq<u8>>::empty());
    assert(two.drop_last() =~= seq![none]);
    assert(seq![none].drop_last() =~= Seq::<Seq<u8>>::empty());
    assert forall|key: u8| #[trigger] last_value(one, key) == last_value(two, key) by {
        assert(last_value(one.drop_last(), key) is None);
        assert(seq![none].last() == none);
        assert(last_value(seq![none], key) == last_value(seq![none].drop_last(), key));
        assert(last_value(seq![none].drop_last(), key) is None);
    }
}

/// A field that is not a byte, an `=` and a value changes nothing.
pub proof fn law_malformed_fields_ignored(text: Seq<u8>, field: Seq<u8>)
    requires
        !field.contains(0x2c),
        field.len() < 3 || field[1] != 0x3d,
    ensures
        parsed(text + seq![0x2c] + field) == parsed(text),
{
    assert(text + seq![0x2cu8] + field =~= text.push(COMMA) + field);
    law_other_fields_ignored(text, field);
}

/// A pair after any text decides the parameter of its key, out of all of its
/// value or out of the first byte of it, and leaves every other parameter as the
/// text before it has it. A pair for an unknown key decides nothing.
pub proof fn law_pair_read_back(text: Seq<u8>, key: u8, value: Seq<u8>)
    requires
        key != 0x2c,
        value.len() > 0,
        !value.contains(0x2c),
    ensures
        ({
            let p = parsed(text);
            let q = parsed(text + seq![0x2c, key, 0x3d] + value);
            &&& q.action == if key == 0x61 {
                value[0]
            } else {
                p.action
            }
            &&& q.format == if key == 0x66 {
                u32_or_zero(value)
            } else {
                p.format
            }
            &&& q.width == if key == 0x73 {
                u32_or_zero(value)
            } else {
                p.width
            }
            &&& q.height == if key == 0x76 {
                u32_or_zero(value)
            } else {
                p.height
            }
            &&& q.image_id == if key == 0x69 {
                u32_or_zero(value)
            } else {
                p.image_id
            }
            &&& q.more_chunks == if key == 0x6d {
                value[0] == 0x31
            } else {
                p.more_chunks
            }
            &&& q.quiet == if key == 0x71 {
                (value[0] - 0x30) % 0x100
            } else {
                p.quiet as int
            }
            &&& q.transmission == if key == 0x74 {
                value[0]
            } else {
                p.transmission
            }
            &&& q.cursor_move == if key == 0x43 {
                value[0] == 0x30
            } else {
                p.cursor_move
            }
            &&& q.unicode_place == if key == 0x55 {
                value[0] == 0x31
            } else {
                p.unicode_place
            }
            &&& q.delete_what == if key == 0x64 {
                value[0]
            } else {
                p.delete_what
            }
            &&& q.z_index == if key == 0x7a {
                i32_or_zero(value)
            } else {
                p.z_index
            }
        }),
{
    let pair = seq![key, 0x3d] + value;
    let whole = text + seq![0x2c, key, 0x3d] + value;
    assert(whole =~= text.push(COMMA) + pair);
    assert(pair.skip(2) =~= value);
    assert forall|k: int| 0 <= k < pair.len() implies #[trigger] pair[k] != COMMA by {
        if k >= 2 {
            assert(pair[k] == value[k - 2]);
        }
    }
    law_later_pair_counts(text, key, pair);
    let before = fields(text, COMMA);
    let after = fields(whole, COMMA);
    assert(last_value(after, key) == Some(value));
    assert(forall|other: u8|
        other != key ==> #[trigger] last_value(after, other) == last_value(before, other));
}

/// Every number that fits is read back from a pair that it is written into, for
/// `s`, `v`, `f` and `i`, and, with its sign, for `z`.
pub proof fn law_numbers_read_back(text: Seq<u8>, n: u32, z: i32)
    ensures
        parsed(text + seq![0x2c, 0x73, 0x3d] + decimal_digits(n as nat)).width == n,
        parsed(text + seq![0x2c, 0x76, 0x3d] + decimal_digits(n as nat)).height == n,
        parsed(text + seq![0x2c, 0x66, 0x3d] + decimal_digits(n as nat)).format == n,
        parsed(text + seq![0x2c, 0x69, 0x3d] + decimal_digits(n as nat)).image_id == n,
        z >= 0 ==> parsed(text + seq![0x2c, 0x7a, 0x3d] + decimal_digits(z as nat)).z_index == z,
        z <= 0 ==> parsed(
            text + seq![0x2c, 0x7a, 0x3d] + (seq![0x2d] + decimal_digits((-z) as nat)),
        ).z_index == z,
{
    let s = decimal_digits(n as nat);
    lemma_digits_hold_no_comma(n as nat);
    law_digits_in_place(n as nat);
    law_numbers_are_read(s, n as nat, 0);
    law_pair_read_back(text, 0x73, s);
    law_pair_read_back(text, 0x76, s);
    law_pair_read_back(text, 0x66, s);
    law_pair_read_back(text, 0x69, s);
    if z >= 0 {
        let t = decimal_digits(z as nat);
        lemma_digits_hold_no_comma(z as nat);
        law_digits_in_place(z as nat);
        law_numbers_are_read(t, z as nat, 0);
        law_pair_read_back(text, 0x7a, t);
    }
    if z <= 0 {
        let t = decimal_digits((-z) as nat);
        let signed = seq![0x2du8] + t;
        lemma_digits_hold_no_comma((-z) as nat);
        law_digits_in_place((-z) as nat);
        law_numbers_are_read(t, (-z) as nat, 0);
        assert forall|k: int| 0 <= k < signed.len() implies #[trigger] signed[k] != 0x2c by {
            if k >= 1 {
                assert(signed[k] == t[k - 1]);
            }
        }
        law_pair_read_back(text, 0x7a, signed);
    }
}

/// No digit is a comma.
proof fn lemma_digits_hold_no_comma(n: nat)
    ensures
        decimal_digits(n).len() > 0,
        !decimal_digits(n).contains(0x2c),
{
    law_digits_in_place(n);
}

} // verus!
