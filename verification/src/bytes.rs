//! The bytes that the escape sequences are made of.

use vstd::prelude::*;

verus! {

/// ESC, which opens every escape sequence.
pub const ESC: u8 = 0x1b;

/// ST as a single byte, the short form of `ESC \`.
pub const ST: u8 = 0x9c;

pub const PLUS: u8 = 0x2b;

pub const COMMA: u8 = 0x2c;

pub const MINUS: u8 = 0x2d;

pub const DIGIT_0: u8 = 0x30;

pub const DIGIT_1: u8 = 0x31;

pub const DIGIT_4: u8 = 0x34;

pub const DIGIT_6: u8 = 0x36;

pub const DIGIT_9: u8 = 0x39;

pub const SEMICOLON: u8 = 0x3b;

pub const EQUALS: u8 = 0x3d;

pub const OPEN_BRACKET: u8 = 0x5b;

pub const BACKSLASH: u8 = 0x5c;

pub const UNDERSCORE: u8 = 0x5f;

pub const UPPER_A: u8 = 0x41;

pub const UPPER_B: u8 = 0x42;

pub const UPPER_C: u8 = 0x43;

pub const UPPER_D: u8 = 0x44;

pub const UPPER_E: u8 = 0x45;

pub const UPPER_F: u8 = 0x46;

pub const UPPER_G: u8 = 0x47;

pub const UPPER_H: u8 = 0x48;

pub const UPPER_I: u8 = 0x49;

pub const UPPER_K: u8 = 0x4b;

pub const UPPER_M: u8 = 0x4d;

pub const UPPER_N: u8 = 0x4e;

pub const UPPER_O: u8 = 0x4f;

pub const UPPER_P: u8 = 0x50;

pub const UPPER_S: u8 = 0x53;

pub const UPPER_T: u8 = 0x54;

pub const UPPER_U: u8 = 0x55;

pub const LOWER_A: u8 = 0x61;

pub const LOWER_D: u8 = 0x64;

pub const LOWER_F: u8 = 0x66;

pub const LOWER_I: u8 = 0x69;

pub const LOWER_M: u8 = 0x6d;

pub const LOWER_Q: u8 = 0x71;

pub const LOWER_S: u8 = 0x73;

pub const LOWER_T: u8 = 0x74;

pub const LOWER_V: u8 = 0x76;

pub const LOWER_Z: u8 = 0x7a;

/// How many bytes of `s` stand before the first `b`; all of them where it has none.
pub open spec fn length_before(s: Seq<u8>, b: u8) -> nat
    decreases s.len(),
{
    if s.len() == 0 || s[0] == b {
        0
    } else {
        1 + length_before(s.skip(1), b)
    }
}

/// The fields of `s` between the separators `sep`. The empty string is one empty field.
pub open spec fn fields(s: Seq<u8>, sep: u8) -> Seq<Seq<u8>>
    decreases s.len(),
{
    if s.len() == 0 {
        seq![Seq::<u8>::empty()]
    } else {
        let before = fields(s.drop_last(), sep);
        if s.last() == sep {
            before.push(Seq::<u8>::empty())
        } else {
            before.update(before.len() - 1, before.last().push(s.last()))
        }
    }
}

/// There is always a last field.
pub proof fn lemma_fields_not_empty(s: Seq<u8>, sep: u8)
    ensures
        fields(s, sep).len() > 0,
    decreases s.len(),
{
    if s.len() > 0 {
        lemma_fields_not_empty(s.drop_last(), sep);
    }
}

/// A string without the separator is its own only field.
pub proof fn lemma_fields_of_one(s: Seq<u8>, sep: u8)
    requires
        !s.contains(sep),
    ensures
        fields(s, sep) =~= seq![s],
    decreases s.len(),
{
    if s.len() > 0 {
        let d = s.drop_last();
        assert(s[s.len() - 1] != sep);
        assert(forall|i: int| 0 <= i < d.len() ==> #[trigger] d[i] == s[i]);
        lemma_fields_of_one(d, sep);
        assert(d.push(s.last()) =~= s);
        assert(fields(s, sep)[0] =~= s);
    } else {
        assert(s =~= Seq::<u8>::empty());
    }
}

/// Fields joined by a separator are split apart at it.
pub proof fn lemma_fields_joined(a: Seq<u8>, b: Seq<u8>, sep: u8)
    requires
        !b.contains(sep),
    ensures
        fields(a.push(sep) + b, sep) =~= fields(a, sep).push(b),
    decreases b.len(),
{
    let s = a.push(sep) + b;
    lemma_fields_not_empty(a, sep);
    if b.len() == 0 {
        assert(s.drop_last() =~= a);
        assert(b =~= Seq::<u8>::empty());
    } else {
        let d = b.drop_last();
        assert(forall|i: int| 0 <= i < d.len() ==> #[trigger] d[i] == b[i]);
        assert(b[b.len() - 1] != sep);
        lemma_fields_joined(a, d, sep);
        assert(s.drop_last() =~= a.push(sep) + d);
        assert(d.push(b.last()) =~= b);
    }
}

/// The fields on both sides of a separator are the fields of the whole.
pub proof fn lemma_fields_around(a: Seq<u8>, b: Seq<u8>, sep: u8)
    ensures
        fields(a.push(sep) + b, sep) =~= fields(a, sep) + fields(b, sep),
    decreases b.len(),
{
    let s = a.push(sep) + b;
    lemma_fields_not_empty(a, sep);
    lemma_fields_not_empty(b, sep);
    if b.len() == 0 {
        assert(s.drop_last() =~= a);
    } else {
        let d = b.drop_last();
        lemma_fields_not_empty(d, sep);
        lemma_fields_around(a, d, sep);
        assert(s.drop_last() =~= a.push(sep) + d);
        assert(s.last() == b.last());
    }
}

/// The first field ends at the first separator, and the others follow it.
pub proof fn lemma_first_field(s: Seq<u8>, sep: u8)
    ensures
        length_before(s, sep) == s.len() ==> fields(s, sep) == seq![s],
        length_before(s, sep) < s.len() ==> fields(s, sep) == seq![
            s.take(length_before(s, sep) as int),
        ] + fields(s.skip(length_before(s, sep) as int + 1), sep),
{
    let k = length_before(s, sep) as int;
    lemma_length_before(s, sep);
    let a = s.take(k);
    assert(!a.contains(sep));
    lemma_fields_of_one(a, sep);
    if k < s.len() {
        let b = s.skip(k + 1);
        assert(a.push(sep) + b =~= s);
        lemma_fields_around(a, b, sep);
    } else {
        assert(a =~= s);
    }
}

/// What `length_before` gives is the first place of `b`, or the end.
pub proof fn lemma_length_before(s: Seq<u8>, b: u8)
    ensures
        length_before(s, b) <= s.len(),
        forall|i: int| 0 <= i < length_before(s, b) ==> #[trigger] s[i] != b,
        length_before(s, b) < s.len() ==> s[length_before(s, b) as int] == b,
    decreases s.len(),
{
    if s.len() > 0 && s[0] != b {
        let t = s.skip(1);
        lemma_length_before(t, b);
        assert forall|i: int| 0 <= i < length_before(s, b) implies #[trigger] s[i] != b by {
            if i > 0 {
                assert(t[i - 1] != b);
            }
        }
    }
}

/// A place that `b` stands at, with no `b` before it, is what `length_before` gives.
pub proof fn lemma_length_before_is(s: Seq<u8>, b: u8, k: int)
    requires
        0 <= k <= s.len(),
        forall|i: int| 0 <= i < k ==> #[trigger] s[i] != b,
        k < s.len() ==> s[k] == b,
    ensures
        length_before(s, b) == k,
{
    lemma_length_before(s, b);
    let n = length_before(s, b) as int;
    if n < k {
        assert(s[n] != b);
    } else if k < n {
        assert(s[k] != b);
    }
}

/// Finds the first `b`, or the end.
pub fn find_byte(s: &[u8], b: u8) -> (r: usize)
    ensures
        r == length_before(s@, b),
        r <= s@.len(),
{
    let mut i: usize = 0;
    while i < s.len() && s[i] != b
        invariant
            0 <= i <= s@.len(),
            forall|k: int| 0 <= k < i ==> #[trigger] s@[k] != b,
        decreases s@.len() - i,
    {
        i = i + 1;
    }
    proof {
        lemma_length_before_is(s@, b, i as int);
    }
    i
}

/// Appends a slice.
pub fn append(out: &mut Vec<u8>, more: &[u8])
    ensures
        final(out)@ == old(out)@ + more@,
{
    out.extend_from_slice(more);
    assert(out@ =~= old(out)@ + more@);
}

/// Copies a part of a slice.
pub fn copy_range(s: &[u8], from: usize, to: usize) -> (r: Vec<u8>)
    requires
        from <= to <= s@.len(),
    ensures
        r@ == s@.subrange(from as int, to as int),
{
    let mut out: Vec<u8> = Vec::new();
    append(&mut out, &s[from..to]);
    assert(out@ =~= s@.subrange(from as int, to as int));
    out
}

} // verus!
