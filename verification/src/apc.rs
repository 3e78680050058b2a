//! Separating graphics commands from the rest of a terminal's output.
//!
//! A command is an APC sequence that starts with `ESC _ G` and runs to the
//! string terminator, `ESC \` or the single byte ST. Everything else passes
//! through. A command may be cut anywhere between two reads; what has come of it
//! so far, be it a part of its `ESC _ G`, is kept back for the next read.

use vstd::prelude::*;

use crate::bytes::{append, copy_range, BACKSLASH, ESC, ST, UNDERSCORE, UPPER_G};

verus! {

/// What a scan of some output yields.
#[verifier::ext_equal]
pub struct Extraction {
    /// The bytes outside graphics commands.
    pub filtered: Seq<u8>,
    /// The payload of each complete command, in order.
    pub apcs: Seq<Seq<u8>>,
    /// A command that has begun, or may have begun, and not ended.
    pub pending: Seq<u8>,
}

/// A graphics command begins at the head of `s`.
pub open spec fn starts_command(s: Seq<u8>) -> bool {
    s.len() >= 3 && s[0] == ESC && s[1] == UNDERSCORE && s[2] == UPPER_G
}

/// All of `s` is the beginning of an `ESC _ G`, cut off before its end.
pub open spec fn cut_introducer(s: Seq<u8>) -> bool {
    ||| s.len() == 1 && s[0] == ESC
    ||| s.len() == 2 && s[0] == ESC && s[1] == UNDERSCORE
}

/// The length of the string terminator at index `i`; zero where there is none.
pub open spec fn terminator_len(s: Seq<u8>, i: int) -> nat {
    if 0 <= i < s.len() && s[i] == ST {
        1
    } else if 0 <= i && i + 1 < s.len() && s[i] == ESC && s[i + 1] == BACKSLASH {
        2
    } else {
        0
    }
}

/// The index of the first terminator at or after `from`.
pub open spec fn terminator_from(s: Seq<u8>, from: int) -> Option<int>
    decreases s.len() - from,
{
    if from >= s.len() {
        None
    } else if terminator_len(s, from) > 0 {
        Some(from)
    } else {
        terminator_from(s, from + 1)
    }
}

/// Separates the commands in `s` from the rest.
pub open spec fn extract(s: Seq<u8>) -> Extraction
    decreases s.len(),
{
    if s.len() == 0 {
        Extraction { filtered: Seq::empty(), apcs: Seq::empty(), pending: Seq::empty() }
    } else if starts_command(s) {
        match terminator_from(s, 3) {
            Some(end) => {
                proof {
                    lemma_terminator_from(s, 3);
                }
                let rest = extract(s.skip(end + terminator_len(s, end)));
                Extraction { apcs: seq![s.subrange(3, end)] + rest.apcs, ..rest }
            },
            None => Extraction { filtered: Seq::empty(), apcs: Seq::empty(), pending: s },
        }
    } else if cut_introducer(s) {
        Extraction { filtered: Seq::empty(), apcs: Seq::empty(), pending: s }
    } else {
        let rest = extract(s.skip(1));
        Extraction { filtered: seq![s[0]] + rest.filtered, ..rest }
    }
}

/// `terminator_from` gives the first place of a terminator.
pub proof fn lemma_terminator_from(s: Seq<u8>, from: int)
    requires
        0 <= from,
    ensures
        match terminator_from(s, from) {
            Some(end) => {
                &&& from <= end < s.len()
                &&& terminator_len(s, end) > 0
                &&& end + terminator_len(s, end) <= s.len()
                &&& forall|i: int| from <= i < end ==> #[trigger] terminator_len(s, i) == 0
            },
            None => forall|i: int| from <= i < s.len() ==> #[trigger] terminator_len(s, i) == 0,
        },
    decreases s.len() - from,
{
    if from < s.len() && terminator_len(s, from) == 0 {
        lemma_terminator_from(s, from + 1);
    }
}

/// A terminator with none before it is what `terminator_from` gives.
proof fn lemma_terminator_is(s: Seq<u8>, from: int, end: int)
    requires
        0 <= from <= end < s.len(),
        terminator_len(s, end) > 0,
        forall|i: int| from <= i < end ==> #[trigger] terminator_len(s, i) == 0,
    ensures
        terminator_from(s, from) == Some(end),
{
    lemma_terminator_from(s, from);
    match terminator_from(s, from) {
        Some(e) => {
            if e < end {
                assert(terminator_len(s, e) == 0);
            } else if end < e {
                assert(terminator_len(s, end) == 0);
            }
        },
        None => {
            assert(terminator_len(s, end) == 0);
        },
    }
}

/// Finds the first terminator at or after `start`.
fn find_terminator(data: &[u8], start: usize) -> (r: Option<usize>)
    requires
        start <= data@.len(),
    ensures
        match r {
            Some(end) => {
                &&& start <= end < data@.len()
                &&& terminator_len(data@, end as int) > 0
                &&& forall|i: int|
                    start <= i < end ==> #[trigger] terminator_len(data@, i) == 0
            },
            None => forall|i: int|
                start <= i < data@.len() ==> #[trigger] terminator_len(data@, i) == 0,
        },
{
    let mut end: usize = start;
    while end < data.len()
        invariant
            start <= end <= data@.len(),
            forall|i: int| start <= i < end ==> #[trigger] terminator_len(data@, i) == 0,
        decreases data@.len() - end,
    {
        if data[end] == ST {
            return Some(end);
        }
        if end + 1 < data.len() && data[end] == ESC && data[end + 1] == BACKSLASH {
            return Some(end);
        }
        end = end + 1;
    }
    None
}

/// What one part of the output adds to what was seen before it.
pub open spec fn followed_by(before: Extraction, after: Extraction) -> Extraction {
    Extraction {
        filtered: before.filtered + after.filtered,
        apcs: before.apcs + after.apcs,
        pending: after.pending,
    }
}

/// Where a scan neither finds a command nor begins one, every byte passes through.
pub proof fn law_nothing_extracted(s: Seq<u8>)
    requires
        extract(s).apcs.len() == 0,
        extract(s).pending.len() == 0,
    ensures
        extract(s).filtered == s,
    decreases s.len(),
{
    if s.len() == 0 {
        assert(s =~= Seq::<u8>::empty());
    } else {
        law_nothing_extracted(s.skip(1));
        assert(seq![s[0]] + s.skip(1) =~= s);
    }
}

/// The payloads that a list of buffers holds.
pub open spec fn contents(apcs: Seq<Vec<u8>>) -> Seq<Seq<u8>> {
    apcs.map_values(|v: Vec<u8>| v@)
}

/// The step of a scan that takes a whole command.
proof fn lemma_take_command(all: Seq<u8>, i: int, end: int)
    requires
        0 <= i,
        i + 3 <= end < all.len(),
        starts_command(all.skip(i)),
        terminator_len(all, end) > 0,
        forall|k: int| i + 3 <= k < end ==> #[trigger] terminator_len(all, k) == 0,
    ensures
        extract(all.skip(i)) == (Extraction {
            apcs: seq![all.subrange(i + 3, end)] + extract(
                all.skip(end + terminator_len(all, end)),
            ).apcs,
            ..extract(all.skip(end + terminator_len(all, end)))
        }),
{
    let s = all.skip(i);
    assert forall|k: int| 3 <= k < end - i implies #[trigger] terminator_len(s, k) == 0 by {
        assert(terminator_len(all, k + i) == 0);
    }
    assert(terminator_len(s, end - i) == terminator_len(all, end));
    lemma_terminator_is(s, 3, end - i);
    assert(s.subrange(3, end - i) =~= all.subrange(i + 3, end));
    assert(s.skip(end - i + terminator_len(s, end - i)) =~= all.skip(
        end + terminator_len(all, end),
    ));
}

/// The step of a scan that meets a command without an end.
proof fn lemma_keep_unfinished(all: Seq<u8>, i: int)
    requires
        0 <= i <= all.len(),
        starts_command(all.skip(i)),
        forall|k: int| i + 3 <= k < all.len() ==> #[trigger] terminator_len(all, k) == 0,
    ensures
        extract(all.skip(i)) == (Extraction {
            filtered: Seq::empty(),
            apcs: Seq::empty(),
            pending: all.skip(i),
        }),
{
    let s = all.skip(i);
    assert forall|k: int| 3 <= k < s.len() implies #[trigger] terminator_len(s, k) == 0 by {
        assert(terminator_len(all, k + i) == 0);
    }
    lemma_terminator_from(s, 3);
    if terminator_from(s, 3) is Some {
        assert(terminator_len(s, terminator_from(s, 3)->0) == 0);
    }
}

/// Extracts the graphics commands from one read of a terminal's output.
///
/// `pending` holds the beginning of a command that the previous reads did not
/// end; it is put before `bytes`, and takes what this read leaves unfinished. A
/// read that ends in `ESC` or `ESC _` leaves those bytes there, as a command may
/// begin with them.
/// Returns the bytes outside commands, and the payload of each command.
pub fn extract_kitty_apc_buffered(bytes: &[u8], pending: &mut Vec<u8>) -> (r: (
    Vec<u8>,
    Vec<Vec<u8>>,
))
    ensures
        r.0@ == extract(old(pending)@ + bytes@).filtered,
        contents(r.1@) == extract(old(pending)@ + bytes@).apcs,
        final(pending)@ == extract(old(pending)@ + bytes@).pending,
        r.1@.len() == 0 && final(pending)@.len() == 0 ==> r.0@ == old(pending)@ + bytes@,
{
    let mut data: Vec<u8> = Vec::new();
    append(&mut data, pending.as_slice());
    append(&mut data, bytes);
    pending.clear();
    let ghost all = data@;
    assert(all == old(pending)@ + bytes@);

    let mut filtered: Vec<u8> = Vec::new();
    let mut apcs: Vec<Vec<u8>> = Vec::new();
    let mut i: usize = 0;
    assert(all.skip(0) =~= all);
    assert(extract(all) =~= followed_by(
        Extraction { filtered: filtered@, apcs: contents(apcs@), pending: Seq::empty() },
        extract(all.skip(0)),
    ));
    while i < data.len()
        invariant_except_break
            pending@.len() == 0,
            extract(all) == followed_by(
                Extraction { filtered: filtered@, apcs: contents(apcs@), pending: Seq::empty() },
                extract(all.skip(i as int)),
            ),
        invariant
            0 <= i <= data@.len(),
            data@ == all,
        ensures
            extract(all) == (Extraction {
                filtered: filtered@,
                apcs: contents(apcs@),
                pending: pending@,
            }),
        decreases data@.len() - i,
    {
        let ghost s = all.skip(i as int);
        let left: usize = data.len() - i;
        let is_start: bool = left >= 3 && data[i] == ESC && data[i + 1] == UNDERSCORE && data[i + 2]
            == UPPER_G;
        let is_cut: bool = (left == 1 && data[i] == ESC) || (left == 2 && data[i] == ESC && data[i
            + 1] == UNDERSCORE);
        if is_start {
            let start: usize = i + 3;
            match find_terminator(data.as_slice(), start) {
                Some(end) => {
                    let payload: Vec<u8> = copy_range(data.as_slice(), start, end);
                    let next: usize = if data[end] == ST {
                        end + 1
                    } else {
                        end + 2
                    };
                    proof {
                        lemma_take_command(all, i as int, end as int);
                        assert(contents(apcs@.push(payload)) =~= contents(apcs@).push(payload@));
                        assert(contents(apcs@) + (seq![payload@] + extract(
                            all.skip(next as int),
                        ).apcs) =~= contents(apcs@).push(payload@) + extract(
                            all.skip(next as int),
                        ).apcs);
                    }
                    apcs.push(payload);
                    i = next;
                },
                None => {
                    let rest: Vec<u8> = copy_range(data.as_slice(), i, data.len());
                    append(pending, rest.as_slice());
                    proof {
                        lemma_keep_unfinished(all, i as int);
                        assert(pending@ =~= s);
                        assert(filtered@ + Seq::<u8>::empty() =~= filtered@);
                        assert(contents(apcs@) + Seq::<Seq<u8>>::empty() =~= contents(apcs@));
                    }
                    break;
                },
            }
        } else if is_cut {
            let rest: Vec<u8> = copy_range(data.as_slice(), i, data.len());
            append(pending, rest.as_slice());
            proof {
                assert(cut_introducer(s));
                assert(pending@ =~= s);
                assert(filtered@ + Seq::<u8>::empty() =~= filtered@);
                assert(contents(apcs@) + Seq::<Seq<u8>>::empty() =~= contents(apcs@));
            }
            break;
        } else {
            proof {
                assert(!starts_command(s));
                assert(!cut_introducer(s));
                assert(s.skip(1) =~= all.skip(i + 1));
                assert(filtered@ + (seq![s[0]] + extract(s.skip(1)).filtered) =~= filtered@.push(
                    s[0],
                ) + extract(s.skip(1)).filtered);
            }
            filtered.push(data[i]);
            i = i + 1;
        }
    }
    proof {
        if apcs@.len() == 0 && pending@.len() == 0 {
            law_nothing_extracted(all);
        }
    }
    (filtered, apcs)
}

/// A command may be cut anywhere: two reads yield together what one read of all
/// the bytes yields.
pub proof fn law_two_reads(a: Seq<u8>, b: Seq<u8>)
    ensures
        extract(a + b) == followed_by(extract(a), extract(extract(a).pending + b)),
    decreases a.len(),
{
    let ab = a + b;
    if a.len() == 0 {
        assert(ab =~= b);
        assert(extract(a).pending + b =~= b);
        assert(followed_by(extract(a), extract(b)) =~= extract(b));
    } else if starts_command(a) {
        lemma_terminator_from(a, 3);
        match terminator_from(a, 3) {
            Some(end) => {
                let next = end + terminator_len(a, end);
                assert(terminator_len(ab, end) == terminator_len(a, end));
                assert forall|k: int| 3 <= k < end implies #[trigger] terminator_len(ab, k)
                    == 0 by {
                    assert(terminator_len(a, k) == 0);
                }
                lemma_terminator_is(ab, 3, end);
                let t = a.skip(next);
                assert(ab.skip(next) =~= t + b);
                assert(ab.subrange(3, end) =~= a.subrange(3, end));
                law_two_reads(t, b);
                assert(extract(ab) =~= followed_by(extract(a), extract(extract(a).pending + b)));
            },
            None => {
                assert(extract(ab) =~= followed_by(extract(a), extract(a + b)));
            },
        }
    } else if cut_introducer(a) {
        assert(extract(ab) =~= followed_by(extract(a), extract(a + b)));
    } else {
        let t = a.skip(1);
        assert(ab.skip(1) =~= t + b);
        assert(!starts_command(ab));
        assert(!cut_introducer(ab));
        law_two_reads(t, b);
        assert(extract(ab) =~= followed_by(extract(a), extract(extract(a).pending + b)));
    }
}

/// What a series of reads yields, each of them taking over what the one before left.
pub open spec fn extract_reads(reads: Seq<Seq<u8>>) -> Extraction
    decreases reads.len(),
{
    if reads.len() == 0 {
        Extraction { filtered: Seq::empty(), apcs: Seq::empty(), pending: Seq::empty() }
    } else {
        let before = extract_reads(reads.drop_last());
        followed_by(before, extract(before.pending + reads.last()))
    }
}

/// The bytes of a series of reads, one after the other.
pub open spec fn joined(reads: Seq<Seq<u8>>) -> Seq<u8>
    decreases reads.len(),
{
    if reads.len() == 0 {
        Seq::empty()
    } else {
        joined(reads.drop_last()) + reads.last()
    }
}

/// However a terminal's output is cut into reads, the reads yield together what
/// one read of all of it yields.
pub proof fn law_any_reads(reads: Seq<Seq<u8>>)
    ensures
        extract_reads(reads) == extract(joined(reads)),
    decreases reads.len(),
{
    if reads.len() > 0 {
        law_any_reads(reads.drop_last());
        law_two_reads(joined(reads.drop_last()), reads.last());
    }
}

/// What is kept back is nothing, an `ESC _ G` cut off before its end, or the
/// beginning of a command that has no end yet.
pub proof fn law_pending_is_unfinished(s: Seq<u8>)
    ensures
        ({
            let kept = extract(s).pending;
            ||| kept.len() == 0
            ||| cut_introducer(kept)
            ||| starts_command(kept) && terminator_from(kept, 3) is None
        }),
    decreases s.len(),
{
    if s.len() > 0 {
        if starts_command(s) {
            lemma_terminator_from(s, 3);
            match terminator_from(s, 3) {
                Some(end) => law_pending_is_unfinished(s.skip(end + terminator_len(s, end))),
                None => {},
            }
        } else if !cut_introducer(s) {
            law_pending_is_unfinished(s.skip(1));
        }
    }
}

/// A payload as it travels: `ESC _ G`, the payload, `ESC \`.
pub open spec fn framed(payload: Seq<u8>) -> Seq<u8> {
    seq![ESC, UNDERSCORE, UPPER_G] + payload + seq![ESC, BACKSLASH]
}

/// `payload` holds no string terminator.
pub open spec fn terminator_free(payload: Seq<u8>) -> bool {
    forall|i: int| 0 <= i < payload.len() ==> #[trigger] terminator_len(payload, i) == 0
}

/// What is kept back is the end of the bytes that were read.
pub proof fn law_pending_is_suffix(s: Seq<u8>)
    ensures
        extract(s).pending.len() <= s.len(),
        extract(s).pending == s.skip(s.len() - extract(s).pending.len()),
    decreases s.len(),
{
    let kept = extract(s).pending;
    if s.len() > 0 {
        if starts_command(s) {
            lemma_terminator_from(s, 3);
            match terminator_from(s, 3) {
                Some(end) => law_pending_is_suffix(s.skip(end + terminator_len(s, end))),
                None => {},
            }
        } else if !cut_introducer(s) {
            law_pending_is_suffix(s.skip(1));
        }
    }
    assert(kept =~= s.skip(s.len() - kept.len()));
}

/// No extracted payload holds a string terminator.
pub proof fn law_payloads_terminator_free(s: Seq<u8>)
    ensures
        forall|k: int|
            0 <= k < extract(s).apcs.len() ==> terminator_free(#[trigger] extract(s).apcs[k]),
    decreases s.len(),
{
    if s.len() > 0 {
        if starts_command(s) {
            lemma_terminator_from(s, 3);
            match terminator_from(s, 3) {
                Some(end) => {
                    let rest = s.skip(end + terminator_len(s, end));
                    law_payloads_terminator_free(rest);
                    let payload = s.subrange(3, end);
                    assert forall|i: int| 0 <= i < payload.len() implies #[trigger] terminator_len(
                        payload,
                        i,
                    ) == 0 by {
                        assert(terminator_len(s, i + 3) == 0);
                    }
                    assert forall|k: int| 0 <= k < extract(s).apcs.len() implies terminator_free(
                        #[trigger] extract(s).apcs[k],
                    ) by {
                        if k > 0 {
                            assert(extract(s).apcs[k] == extract(rest).apcs[k - 1]);
                        }
                    }
                },
                None => {},
            }
        } else if !cut_introducer(s) {
            law_payloads_terminator_free(s.skip(1));
            assert(extract(s).apcs == extract(s.skip(1)).apcs);
        }
    }
}

/// A framed payload is extracted whole, and the bytes after it are scanned as
/// if it had not been there.
pub proof fn law_framed_payload_extracted(payload: Seq<u8>, rest: Seq<u8>)
    requires
        terminator_free(payload),
    ensures
        extract(framed(payload) + rest) == (Extraction {
            apcs: seq![payload] + extract(rest).apcs,
            ..extract(rest)
        }),
{
    let s = framed(payload) + rest;
    let end = 3 + payload.len() as int;
    assert(terminator_len(s, end) == 2);
    assert forall|k: int| 3 <= k < end implies #[trigger] terminator_len(s, k) == 0 by {
        assert(terminator_len(payload, k - 3) == 0);
        assert(s[k] == payload[k - 3]);
        if k + 1 < end {
            assert(s[k + 1] == payload[k - 2]);
        } else {
            assert(s[k + 1] == ESC);
        }
    }
    lemma_terminator_is(s, 3, end);
    assert(s.subrange(3, end) =~= payload);
    assert(s.skip(end + 2) =~= rest);
}

/// A piece of a terminal's output: a byte outside commands, or a whole command.
pub enum Piece {
    Text(u8),
    Command { payload: Seq<u8>, terminator: Seq<u8> },
}

/// A piece as it travels.
pub open spec fn piece_bytes(piece: Piece) -> Seq<u8> {
    match piece {
        Piece::Text(b) => seq![b],
        Piece::Command { payload, terminator } => seq![0x1b, 0x5f, 0x47] + payload + terminator,
    }
}

/// Pieces one after the other, and a last part that is no piece.
pub open spec fn written(pieces: Seq<Piece>, tail: Seq<u8>) -> Seq<u8>
    decreases pieces.len(),
{
    if pieces.len() == 0 {
        tail
    } else {
        piece_bytes(pieces[0]) + written(pieces.skip(1), tail)
    }
}

/// The bytes among pieces that stand outside commands.
pub open spec fn texts(pieces: Seq<Piece>) -> Seq<u8>
    decreases pieces.len(),
{
    if pieces.len() == 0 {
        Seq::empty()
    } else {
        match pieces[0] {
            Piece::Text(b) => seq![b] + texts(pieces.skip(1)),
            Piece::Command { payload, terminator } => texts(pieces.skip(1)),
        }
    }
}

/// The payloads of the commands among pieces.
pub open spec fn payloads(pieces: Seq<Piece>) -> Seq<Seq<u8>>
    decreases pieces.len(),
{
    if pieces.len() == 0 {
        Seq::empty()
    } else {
        match pieces[0] {
            Piece::Text(b) => payloads(pieces.skip(1)),
            Piece::Command { payload, terminator } => seq![payload] + payloads(pieces.skip(1)),
        }
    }
}

/// `s` begins with `ESC _ G`.
pub open spec fn introduced(s: Seq<u8>) -> bool {
    s.len() >= 3 && s[0] == 0x1b && s[1] == 0x5f && s[2] == 0x47
}

/// `s` is `ESC` or `ESC _` alone.
pub open spec fn half_introduced(s: Seq<u8>) -> bool {
    s == seq![0x1bu8] || s == seq![0x1bu8, 0x5f]
}

/// Neither the byte ST nor `ESC \` stands in `s` at or after `from`.
pub open spec fn unterminated(s: Seq<u8>, from: int) -> bool {
    forall|i: int|
        from <= i < s.len() ==> #[trigger] s[i] != 0x9c && !(s[i] == 0x1b && i + 1 < s.len() && s[i
            + 1] == 0x5c)
}

/// The pieces are what they are said to be: each command has a terminator, and
/// none inside its payload; no byte outside commands begins one; and the last
/// part is nothing, or a command that has no terminator or no payload yet.
pub open spec fn proper(pieces: Seq<Piece>, tail: Seq<u8>) -> bool
    decreases pieces.len(),
{
    if pieces.len() == 0 {
        ||| tail.len() == 0
        ||| half_introduced(tail)
        ||| introduced(tail) && unterminated(tail, 3)
    } else {
        let whole = written(pieces, tail);
        &&& proper(pieces.skip(1), tail)
        &&& match pieces[0] {
            Piece::Text(b) => !introduced(whole) && !half_introduced(whole),
            Piece::Command { payload, terminator } => {
                &&& unterminated(payload, 0)
                &&& terminator == seq![0x9cu8] || terminator == seq![0x1bu8, 0x5c]
            },
        }
    }
}

/// Output that is put together of bytes outside commands, of whole commands, and
/// of a last part that is unfinished, is taken apart into just these: the bytes
/// and the payloads in their order, and what is unfinished. Nothing is lost,
/// nothing is added, and nothing changes sides.
pub proof fn law_pieces_are_separated(pieces: Seq<Piece>, tail: Seq<u8>)
    requires
        proper(pieces, tail),
    ensures
        extract(written(pieces, tail)).filtered == texts(pieces),
        extract(written(pieces, tail)).apcs == payloads(pieces),
        extract(written(pieces, tail)).pending == tail,
    decreases pieces.len(),
{
    let s = written(pieces, tail);
    if pieces.len() == 0 {
        if introduced(tail) {
            assert forall|k: int| 3 <= k < tail.len() implies #[trigger] terminator_len(tail, k)
                == 0 by {
                assert(tail[k] != 0x9c);
            }
            assert(tail.skip(0) =~= tail);
            lemma_keep_unfinished(tail, 0);
        }
    } else {
        let rest = written(pieces.skip(1), tail);
        law_pieces_are_separated(pieces.skip(1), tail);
        match pieces[0] {
            Piece::Text(b) => {
                assert(s =~= seq![b] + rest);
                assert(s.skip(1) =~= rest);
                assert(!cut_introducer(s)) by {
                    if cut_introducer(s) {
                        assert(s =~= seq![0x1bu8] || s =~= seq![0x1bu8, 0x5f]);
                    }
                }
            },
            Piece::Command { payload, terminator } => {
                let end = 3 + payload.len() as int;
                assert(s =~= seq![0x1b, 0x5f, 0x47] + payload + terminator + rest);
                assert forall|k: int| 3 <= k < end implies #[trigger] terminator_len(s, k) == 0 by {
                    assert(s[k] == payload[k - 3]);
                    if k + 1 < end {
                        assert(s[k + 1] == payload[k - 2]);
                    } else {
                        assert(s[k + 1] == terminator[0]);
                    }
                }
                assert(s[end] == terminator[0]);
                if terminator.len() == 2 {
                    assert(s[end + 1] == terminator[1]);
                }
                assert(terminator_len(s, end) == terminator.len());
                lemma_terminator_is(s, 3, end);
                assert(s.subrange(3, end) =~= payload);
                assert(s.skip(end + terminator.len()) =~= rest);
            },
        }
    }
}

/// All output is put together in this way, so that what an extraction gives, with
/// the `ESC _ G` and the terminators put back where they stood, is the output.
pub proof fn law_output_is_pieces(s: Seq<u8>) -> (pieces: Seq<Piece>)
    ensures
        proper(pieces, extract(s).pending),
        written(pieces, extract(s).pending) == s,
        texts(pieces) == extract(s).filtered,
        payloads(pieces) == extract(s).apcs,
    decreases s.len(),
{
    let tail = extract(s).pending;
    let none = Seq::<Piece>::empty();
    if s.len() == 0 {
        assert(s =~= tail);
        none
    } else if starts_command(s) {
        lemma_terminator_from(s, 3);
        match terminator_from(s, 3) {
            Some(end) => {
                let n = terminator_len(s, end) as int;
                let piece = Piece::Command {
                    payload: s.subrange(3, end),
                    terminator: s.subrange(end, end + n),
                };
                let more = law_output_is_pieces(s.skip(end + n));
                let pieces = seq![piece] + more;
                assert(pieces.skip(1) =~= more);
                assert(written(pieces, tail) =~= s);
                let payload = s.subrange(3, end);
                assert forall|i: int| 0 <= i < payload.len() implies #[trigger] payload[i] != 0x9c
                    && !(payload[i] == 0x1b && i + 1 < payload.len() && payload[i + 1] == 0x5c) by {
                    assert(terminator_len(s, i + 3) == 0);
                }
                let terminator = s.subrange(end, end + n);
                assert(terminator =~= seq![0x9cu8] || terminator =~= seq![0x1bu8, 0x5c]);
                pieces
            },
            None => {
                assert forall|i: int| 3 <= i < s.len() implies #[trigger] s[i] != 0x9c && !(s[i]
                    == 0x1b && i + 1 < s.len() && s[i + 1] == 0x5c) by {
                    assert(terminator_len(s, i) == 0);
                }
                none
            },
        }
    } else if cut_introducer(s) {
        assert(s =~= seq![0x1bu8] || s =~= seq![0x1bu8, 0x5f]);
        none
    } else {
        let more = law_output_is_pieces(s.skip(1));
        let pieces = seq![Piece::Text(s[0])] + more;
        assert(pieces.skip(1) =~= more);
        assert(written(pieces, tail) =~= s);
        pieces
    }
}

/// Output without an ESC passes through as it is, and holds no command; after such
/// output, the rest is scanned as if it stood alone.
pub proof fn law_plain_output_passes(s: Seq<u8>, rest: Seq<u8>)
    requires
        !s.contains(0x1b),
    ensures
        extract(s).filtered == s,
        extract(s).apcs == Seq::<Seq<u8>>::empty(),
        extract(s).pending == Seq::<u8>::empty(),
        extract(s + rest).filtered == s + extract(rest).filtered,
        extract(s + rest).apcs == extract(rest).apcs,
        extract(s + rest).pending == extract(rest).pending,
    decreases s.len(),
{
    if s.len() == 0 {
        assert(s =~= Seq::<u8>::empty());
        assert(s + rest =~= rest);
    } else {
        let t = s.skip(1);
        assert(s[0] != 0x1b);
        assert(forall|i: int| 0 <= i < t.len() ==> #[trigger] t[i] == s[i + 1]);
        law_plain_output_passes(t, rest);
        assert((s + rest).skip(1) =~= t + rest);
        assert(seq![s[0]] + t =~= s);
        assert(seq![s[0]] + (t + extract(rest).filtered) =~= s + extract(rest).filtered);
    }
}

/// A command counts from its `ESC _ G` to the first terminator, in either form,
/// wherever in the output it stands after plain bytes.
pub proof fn law_command_among_plain_output(
    before: Seq<u8>,
    payload: Seq<u8>,
    terminator: Seq<u8>,
    rest: Seq<u8>,
)
    requires
        !before.contains(0x1b),
        unterminated(payload, 0),
        terminator == seq![0x9cu8] || terminator == seq![0x1bu8, 0x5c],
    ensures
        ({
            let s = before + (seq![0x1b, 0x5f, 0x47] + payload + terminator + rest);
            &&& extract(s).filtered == before + extract(rest).filtered
            &&& extract(s).apcs == seq![payload] + extract(rest).apcs
            &&& extract(s).pending == extract(rest).pending
        }),
{
    let s = seq![0x1b, 0x5f, 0x47] + payload + terminator + rest;
    let more = law_output_is_pieces(rest);
    let tail = extract(rest).pending;
    let pieces = seq![Piece::Command { payload, terminator }] + more;
    assert(pieces.skip(1) =~= more);
    assert(written(pieces, tail) =~= s);
    law_pieces_are_separated(pieces, tail);
    law_plain_output_passes(before, s);
}

/// A command without a terminator is kept back whole, and nothing else is.
pub proof fn law_unfinished_kept_back(before: Seq<u8>, tail: Seq<u8>)
    requires
        !before.contains(0x1b),
        half_introduced(tail) || introduced(tail) && unterminated(tail, 3),
    ensures
        extract(before + tail).filtered == before,
        extract(before + tail).apcs == Seq::<Seq<u8>>::empty(),
        extract(before + tail).pending == tail,
{
    let none = Seq::<Piece>::empty();
    law_pieces_are_separated(none, tail);
    assert(before + Seq::<u8>::empty() =~= before);
    law_plain_output_passes(before, tail);
}

/// The payloads of a list of buffers are what the buffers hold, one for one.
pub proof fn law_contents_one_for_one(apcs: Seq<Vec<u8>>)
    ensures
        contents(apcs).len() == apcs.len(),
        forall|k: int| 0 <= k < apcs.len() ==> #[trigger] contents(apcs)[k] == apcs[k]@,
{
}

/// A framed payload is `ESC _ G`, the payload and `ESC \`, byte by byte.
pub proof fn law_frame_bytes(payload: Seq<u8>)
    ensures
        framed(payload) == seq![0x1b, 0x5f, 0x47] + payload + seq![0x1b, 0x5c],
        terminator_free(payload) <==> unterminated(payload, 0),
{
    if unterminated(payload, 0) {
        assert forall|i: int| 0 <= i < payload.len() implies #[trigger] terminator_len(payload, i)
            == 0 by {
            assert(payload[i] != 0x9c);
        }
    }
    if terminator_free(payload) {
        assert forall|i: int| 0 <= i < payload.len() implies #[trigger] payload[i] != 0x9c && !(
        payload[i] == 0x1b && i + 1 < payload.len() && payload[i + 1] == 0x5c) by {
            assert(terminator_len(payload, i) == 0);
        }
    }
}

} // verus!
