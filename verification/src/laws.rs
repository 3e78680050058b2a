//! What holds of sequences of commands, and of answers read back.

use vstd::prelude::*;

use crate::apc::{
    extract, law_framed_payload_extracted, terminator_free, terminator_len,
};
use crate::bytes::{
    fields, lemma_fields_of_one, lemma_length_before_is, COMMA, EQUALS, LOWER_A, LOWER_D, LOWER_I,
    LOWER_Q, LOWER_T, SEMICOLON, UPPER_A, UPPER_I, UPPER_T,
};
use crate::decimal::{decimal_digits, is_digit, law_decimal_round_trip, unsigned_up_to};
use crate::params::{is_pair, last_value, parsed, KittyParams};
use crate::raster::{transfer_result, Raster, TransferError};
use crate::storage::{
    answer, bytes_of, displays, ok_text, payload_data, payload_params, placed, placement_states,
    response, ImagePlacement, StorageState, StoredImage, StoredState, Transfer,
};

verus! {

/// One chunk of a transfer.
pub struct Chunk {
    pub params: KittyParams,
    pub data: Seq<u8>,
}

/// The state after a series of chunks, and the answer to the last one.
pub open spec fn after_chunks(state: StorageState, chunks: Seq<Chunk>) -> (
    StorageState,
    Option<Seq<u8>>,
)
    decreases chunks.len(),
{
    if chunks.len() == 0 {
        (state, None)
    } else {
        after_chunks(state, chunks.drop_last()).0.transmitted(
            chunks.last().params,
            chunks.last().data,
        )
    }
}

/// The data of a series of chunks, one after the other.
pub open spec fn joined_data(chunks: Seq<Chunk>) -> Seq<u8>
    decreases chunks.len(),
{
    if chunks.len() == 0 {
        Seq::empty()
    } else {
        joined_data(chunks.drop_last()) + chunks.last().data
    }
}

/// All chunks after the first name the image of the first, or none.
pub open spec fn one_image(state: StorageState, chunks: Seq<Chunk>) -> bool {
    let id = state.transfer_id(chunks[0].params);
    forall|k: int|
        0 < k < chunks.len() ==> (#[trigger] chunks[k]).params.image_id == 0
            || chunks[k].params.image_id == id
}

/// More chunks follow on every one of these.
pub open spec fn all_more(chunks: Seq<Chunk>) -> bool {
    forall|k: int| 0 <= k < chunks.len() ==> (#[trigger] chunks[k]).params.more_chunks
}

/// The first chunks of a transfer are chunks of one image.
proof fn lemma_first_chunks(state: StorageState, chunks: Seq<Chunk>, n: int)
    requires
        0 < n <= chunks.len(),
        one_image(state, chunks),
        forall|k: int| 0 <= k < n ==> (#[trigger] chunks[k]).params.more_chunks,
    ensures
        one_image(state, chunks.take(n)),
        all_more(chunks.take(n)),
{
    let id = state.transfer_id(chunks[0].params);
    let t = chunks.take(n);
    assert forall|k: int| 0 < k < t.len() implies (#[trigger] t[k]).params.image_id == 0
        || t[k].params.image_id == id by {
        assert(t[k] == chunks[k]);
    }
    assert forall|k: int| 0 <= k < t.len() implies (#[trigger] t[k]).params.more_chunks by {
        assert(t[k] == chunks[k]);
    }
}

/// A chunk with the number of the last transfer, or with none, belongs to that
/// transfer while it is in progress.
proof fn lemma_next_chunk_belongs(state: StorageState, id: u32, params: KittyParams)
    requires
        state.pending.contains_key(id),
        state.last_transfer_id == id,
        params.image_id == 0 || params.image_id == id,
    ensures
        state.transfer_id(params) == id,
{
    if state.pending.is_empty() {
        assert(state.pending.dom() =~= Set::<u32>::empty());
    }
}

/// While more chunks are to come, they add up, and nothing is answered.
proof fn lemma_chunks_add_up(state: StorageState, chunks: Seq<Chunk>)
    requires
        chunks.len() > 0,
        one_image(state, chunks),
        all_more(chunks),
    ensures
        ({
            let first = chunks[0].params;
            let id = state.transfer_id(first);
            after_chunks(state, chunks) == (
                StorageState {
                    pending: state.pending.insert(
                        id,
                        state.extended(id, first, joined_data(chunks)),
                    ),
                    ..state.recorded(first)
                },
                None::<Seq<u8>>,
            )
        }),
    decreases chunks.len(),
{
    let first = chunks[0].params;
    let id = state.transfer_id(first);
    let d = chunks.drop_last();
    let last = chunks.last();
    assert(last == chunks[chunks.len() - 1]);
    if chunks.len() == 1 {
        assert(after_chunks(state, d).0 == state);
        assert(joined_data(d) =~= Seq::<u8>::empty());
        assert(joined_data(chunks) =~= last.data);
    } else {
        lemma_first_chunks(state, chunks, chunks.len() - 1);
        assert(d =~= chunks.take(chunks.len() - 1));
        lemma_chunks_add_up(state, d);
        let mid = after_chunks(state, d).0;
        lemma_next_chunk_belongs(mid, id, last.params);
        if state.pending.contains_key(id) {
            assert(state.pending[id].data + joined_data(d) + last.data =~= state.pending[id].data
                + joined_data(chunks));
        }
        assert(mid.transmitted(last.params, last.data).0 =~= StorageState {
            pending: state.pending.insert(id, state.extended(id, first, joined_data(chunks))),
            ..state.recorded(first)
        });
    }
}

/// A transfer in chunks gives the state and the answer that one transfer of
/// all its data with the parameters of the first chunk gives, and nothing is
/// answered before the last chunk.
pub proof fn law_chunks_are_one_transfer(state: StorageState, chunks: Seq<Chunk>)
    requires
        chunks.len() > 0,
        one_image(state, chunks),
        all_more(chunks.drop_last()),
        !chunks.last().params.more_chunks,
    ensures
        after_chunks(state, chunks) == state.transmitted(
            KittyParams { more_chunks: false, ..chunks[0].params },
            joined_data(chunks),
        ),
        forall|n: int|
            0 <= n < chunks.len() ==> (#[trigger] after_chunks(state, chunks.take(n))).1 is None,
{
    let first = chunks[0].params;
    let whole = KittyParams { more_chunks: false, ..first };
    let id = state.transfer_id(first);
    let d = chunks.drop_last();
    let last = chunks.last();
    assert forall|k: int| 0 <= k < chunks.len() - 1 implies (
    #[trigger] chunks[k]).params.more_chunks by {
        assert(d[k] == chunks[k]);
    }
    assert forall|n: int| 0 <= n < chunks.len() implies (#[trigger] after_chunks(
        state,
        chunks.take(n),
    )).1 is None by {
        if n > 0 {
            lemma_first_chunks(state, chunks, n);
            lemma_chunks_add_up(state, chunks.take(n));
        }
    }
    if chunks.len() == 1 {
        assert(after_chunks(state, d).0 == state);
        assert(joined_data(d) =~= Seq::<u8>::empty());
        assert(joined_data(chunks) =~= last.data);
        assert(whole == first);
    } else {
        lemma_first_chunks(state, chunks, chunks.len() - 1);
        assert(d =~= chunks.take(chunks.len() - 1));
        assert(last == chunks[chunks.len() - 1]);
        lemma_chunks_add_up(state, d);
        let mid = after_chunks(state, d).0;
        lemma_next_chunk_belongs(mid, id, last.params);
        let in_chunks = mid.extended(id, last.params, last.data);
        let at_once = state.extended(id, whole, joined_data(chunks));
        assert(in_chunks.data =~= at_once.data);
        let a = StorageState { pending: mid.pending.remove(id), ..mid.recorded(last.params) };
        let b = StorageState { pending: state.pending.remove(id), ..state.recorded(whole) };
        assert(a.pending =~= b.pending);
        assert(a =~= b);
    }
}

/// A command that transmits.
pub open spec fn transmits(params: KittyParams) -> bool {
    params.action == LOWER_T || params.action == UPPER_T
}

/// The state after a series of commands, and the answer to the last one.
pub open spec fn after_commands(state: StorageState, commands: Seq<Chunk>) -> (
    StorageState,
    Option<Seq<u8>>,
)
    decreases commands.len(),
{
    if commands.len() == 0 {
        (state, None)
    } else {
        after_commands(state, commands.drop_last()).0.processed(
            commands.last().params,
            commands.last().data,
        )
    }
}

/// Commands that transmit are chunks: what holds of chunks holds of them.
pub proof fn law_transmissions_are_chunks(state: StorageState, commands: Seq<Chunk>)
    requires
        forall|k: int| 0 <= k < commands.len() ==> transmits((#[trigger] commands[k]).params),
    ensures
        after_commands(state, commands) == after_chunks(state, commands),
    decreases commands.len(),
{
    if commands.len() > 0 {
        let d = commands.drop_last();
        assert forall|k: int| 0 <= k < d.len() implies transmits((#[trigger] d[k]).params) by {
            assert(d[k] == commands[k]);
        }
        law_transmissions_are_chunks(state, d);
        assert(transmits(commands[commands.len() - 1].params));
    }
}

/// A transfer whose data decodes is stored under its image's number, replaces
/// what was there, and is answered with `OK`. Where its first chunk says `a=T`
/// and leaves it not to placeholder characters, it is placed, with the same
/// pixels; `a=t` stores it alone.
pub proof fn law_decoded_transfer_is_stored(
    state: StorageState,
    params: KittyParams,
    data: Seq<u8>,
    raster: Raster,
)
    requires
        transmits(params),
        !params.more_chunks,
        ({
            let t = state.extended(state.transfer_id(params), params, data);
            transfer_result(t.params, t.data) == Ok::<Raster, TransferError>(raster)
        }),
    ensures
        ({
            let id = state.transfer_id(params);
            let first = state.extended(id, params, data).params;
            let (after, reply) = state.processed(params, data);
            &&& after.images.contains_key(id)
            &&& after.images[id] == (StoredState {
                raster,
                width: raster.width,
                height: raster.height,
            })
            &&& forall|other: u32|
                other != id ==> (#[trigger] after.images.contains_key(other)
                    <==> state.images.contains_key(other)) && (state.images.contains_key(other)
                    ==> after.images[other] == state.images[other])
            &&& after.placements == if first.action == UPPER_T && !first.unicode_place {
                state.placements.push(placed(id, raster, first.z_index))
            } else {
                state.placements
            }
            &&& !after.pending.contains_key(id)
            &&& reply == if first.quiet == 0 {
                Some(answer(id, ok_text()))
            } else {
                None
            }
        }),
{
}

/// A transfer whose data does not decode changes no image and no placement,
/// is over, and is answered with the reason, unless the client wants no answers.
pub proof fn law_refused_transfer_is_answered(
    state: StorageState,
    params: KittyParams,
    data: Seq<u8>,
    e: TransferError,
)
    requires
        transmits(params),
        !params.more_chunks,
        ({
            let t = state.extended(state.transfer_id(params), params, data);
            transfer_result(t.params, t.data) == Err::<Raster, TransferError>(e)
        }),
    ensures
        ({
            let id = state.transfer_id(params);
            let first = state.extended(id, params, data).params;
            let (after, reply) = state.processed(params, data);
            &&& after.images == state.images
            &&& after.placements == state.placements
            &&& !after.pending.contains_key(id)
            &&& reply == if first.quiet < 2 {
                Some(answer(id, e.text()))
            } else {
                None
            }
        }),
{
}

/// No command takes back a placement, touches what is on display, or forgets
/// that all images were deleted; a command adds at most one placement.
pub proof fn law_display_is_kept(state: StorageState, params: KittyParams, data: Seq<u8>)
    ensures
        ({
            let after = state.processed(params, data).0;
            &&& after.current_display == state.current_display
            &&& state.had_delete ==> after.had_delete
            &&& state.placements.len() <= after.placements.len() <= state.placements.len() + 1
            &&& after.placements.take(state.placements.len() as int) == state.placements
        }),
{
    let after = state.processed(params, data).0;
    assert(after.placements.take(state.placements.len() as int) =~= state.placements);
}

/// A deletion without an image's number leaves no image and no transfer; one
/// with a number leaves the others as they were. Placements stay either way.
pub proof fn law_deletion(state: StorageState, params: KittyParams, data: Seq<u8>)
    requires
        params.action == LOWER_D,
    ensures
        ({
            let what = params.delete_what;
            let by_id = what == LOWER_I || what == UPPER_I;
            let after = state.processed(params, data).0;
            &&& state.processed(params, data).1 is None
            &&& after.placements == state.placements
            &&& after.had_delete == (state.had_delete || what == LOWER_A || what == UPPER_A)
            &&& forall|id: u32| #[trigger]
                after.images.contains_key(id) <==> by_id && id != params.image_id
                    && state.images.contains_key(id)
            &&& forall|id: u32| #[trigger]
                after.pending.contains_key(id) <==> by_id && id != params.image_id
                    && state.pending.contains_key(id)
            &&& forall|id: u32| #[trigger]
                after.images.contains_key(id) ==> after.images[id] == state.images[id]
            &&& forall|id: u32| #[trigger]
                after.pending.contains_key(id) ==> after.pending[id] == state.pending[id]
        }),
{
}

/// The same deletion twice is the deletion once.
pub proof fn law_deletion_twice(state: StorageState, params: KittyParams, data: Seq<u8>)
    ensures
        state.deleted(params).deleted(params) == state.deleted(params),
        params.action == LOWER_D ==> state.processed(params, data).0.processed(params, data)
            == state.processed(params, data),
{
    assert(state.deleted(params).deleted(params) =~= state.deleted(params));
}

/// No deletion adds an image or a transfer, changes one that it leaves, or
/// forgets that all images were deleted.
pub proof fn law_deletion_adds_nothing(state: StorageState, params: KittyParams)
    ensures
        state.deleted(params).images.submap_of(state.images),
        state.deleted(params).pending.submap_of(state.pending),
        state.had_delete ==> state.deleted(params).had_delete,
{
}

/// A command at level 2 is never answered, unless it ends a transfer that began
/// at a lower level.
pub proof fn law_quiet_always(state: StorageState, params: KittyParams, data: Seq<u8>)
    requires
        params.quiet >= 2,
        transmits(params) ==> state.extended(
            state.transfer_id(params),
            params,
            data,
        ).params.quiet >= 2,
    ensures
        state.processed(params, data).1 is None,
{
}

/// A chunk for one image leaves the other images and their transfers as they were.
pub proof fn law_other_transfers_untouched(
    state: StorageState,
    params: KittyParams,
    data: Seq<u8>,
    other: u32,
)
    requires
        transmits(params),
        other != state.transfer_id(params),
    ensures
        ({
            let after = state.processed(params, data).0;
            &&& after.images.contains_key(other) == state.images.contains_key(other)
            &&& state.images.contains_key(other) ==> after.images[other] == state.images[other]
            &&& after.pending.contains_key(other) == state.pending.contains_key(other)
            &&& state.pending.contains_key(other) ==> after.pending[other] == state.pending[other]
        }),
{
}

/// A query is answered with `OK` unless the client is quiet; it and every
/// unknown action change nothing.
pub proof fn law_query_and_unknown_actions(state: StorageState, params: KittyParams, data: Seq<u8>)
    requires
        params.action != LOWER_T,
        params.action != UPPER_T,
        params.action != LOWER_D,
    ensures
        state.processed(params, data).0 == state,
        state.processed(params, data).1 == if params.action == LOWER_Q && params.quiet == 0 {
            Some(answer(params.image_id, ok_text()))
        } else {
            None
        },
{
}

/// The higher the level of quiet, the fewer answers: level 0 hears of
/// everything, level 1 of failures, level 2 and above of nothing.
pub proof fn law_quiet_levels(id: u32, e: TransferError, quiet: u8)
    ensures
        response(quiet, id, Ok(())) is Some <==> quiet == 0,
        response(quiet, id, Err(e)) is Some <==> quiet <= 1,
{
}

/// An answer is itself a command: extracting it from output gives a payload
/// with the image's number as its `i` and the text as its data.
pub proof fn law_answer_read_back(id: u32, text: Seq<u8>, rest: Seq<u8>)
    requires
        terminator_free(text),
    ensures
        ({
            let read = extract(answer(id, text) + rest);
            &&& read.apcs.len() == 1 + extract(rest).apcs.len()
            &&& payload_params(read.apcs[0]).image_id == id
            &&& payload_data(read.apcs[0]) == text
            &&& read.filtered == extract(rest).filtered
            &&& read.pending == extract(rest).pending
        }),
{
    let digits = decimal_digits(id as nat);
    let head = seq![LOWER_I, EQUALS] + digits;
    let payload = head.push(SEMICOLON) + text;
    law_decimal_round_trip(id as nat);
    assert forall|k: int| 0 <= k < head.len() implies #[trigger] head[k] == LOWER_I || head[k]
        == EQUALS || is_digit(head[k]) by {
        if k >= 2 {
            assert(head[k] == digits[k - 2]);
        }
    }
    assert forall|k: int| 0 <= k < payload.len() implies #[trigger] terminator_len(payload, k)
        == 0 by {
        if k < head.len() {
            assert(payload[k] == head[k]);
        } else if k > head.len() {
            let j = k - head.len() - 1;
            assert(terminator_len(text, j) == 0);
            assert(payload[k] == text[j]);
            if k + 1 < payload.len() {
                assert(payload[k + 1] == text[j + 1]);
            }
        }
    }
    law_framed_payload_extracted(payload, rest);
    assert(extract(answer(id, text) + rest).apcs[0] == payload);

    assert forall|k: int| 0 <= k < head.len() implies #[trigger] payload[k] != SEMICOLON by {
        assert(payload[k] == head[k]);
    }
    lemma_length_before_is(payload, SEMICOLON, head.len() as int);
    assert(payload.take(head.len() as int) =~= head);
    assert(payload.skip(head.len() as int + 1) =~= text);
    assert(!head.contains(COMMA));
    lemma_fields_of_one(head, COMMA);
    assert(fields(head, COMMA).last() == head);
    assert(is_pair(head, LOWER_I));
    assert(head.skip(2) =~= digits);
    assert(last_value(fields(head, COMMA), LOWER_I) == Some(digits));
    assert(unsigned_up_to(digits, 0xffff_ffff) == Some(id as nat));
}

/// The texts of all answers can be read back.
pub proof fn law_answer_texts_readable(e: TransferError)
    ensures
        terminator_free(ok_text()),
        terminator_free(e.text()),
{
}

/// An answer is `ESC _ G i=`, the number in decimal, `;`, the text and `ESC \`.
pub proof fn law_answer_bytes(id: u32, text: Seq<u8>)
    ensures
        answer(id, text) == seq![0x1b, 0x5f, 0x47, 0x69, 0x3d] + decimal_digits(id as nat) + seq![
            0x3b,
        ] + text + seq![0x1b, 0x5c],
        ok_text() == seq![0x4fu8, 0x4b],
{
    assert(answer(id, text) =~= seq![0x1b, 0x5f, 0x47, 0x69, 0x3d] + decimal_digits(id as nat)
        + seq![0x3b] + text + seq![0x1b, 0x5c]);
}

/// Who is answered what: at level 0 a success is answered with `OK`, at levels 0
/// and 1 a failure with its word, each with the image's number; the rest is silence.
pub proof fn law_response_bytes(quiet: u8, id: u32, e: TransferError)
    ensures
        ({
            let head = seq![0x1b, 0x5f, 0x47, 0x69, 0x3d] + decimal_digits(id as nat) + seq![0x3b];
            &&& response(quiet, id, Ok(())) == if quiet == 0 {
                Some(head + seq![0x4f, 0x4b] + seq![0x1b, 0x5c])
            } else {
                None
            }
            &&& response(quiet, id, Err(e)) == if quiet <= 1 {
                Some(head + e.text() + seq![0x1b, 0x5c])
            } else {
                None
            }
        }),
{
    law_answer_bytes(id, ok_text());
    law_answer_bytes(id, e.text());
}

/// The parameters of a command stand before its first `;`, and all that follows
/// it is data, further `;` and all; a command without one has no data.
pub proof fn law_payload_is_split(head: Seq<u8>, data: Seq<u8>)
    requires
        !head.contains(0x3b),
    ensures
        payload_params(head + seq![0x3b] + data) == parsed(head),
        payload_data(head + seq![0x3b] + data) == data,
        payload_params(head) == parsed(head),
        payload_data(head) == Seq::<u8>::empty(),
{
    let payload = head + seq![0x3b] + data;
    assert forall|k: int| 0 <= k < head.len() implies #[trigger] payload[k] != SEMICOLON by {
        assert(payload[k] == head[k]);
    }
    lemma_length_before_is(payload, SEMICOLON, head.len() as int);
    lemma_length_before_is(head, SEMICOLON, head.len() as int);
    assert(payload.take(head.len() as int) =~= head);
    assert(payload.skip(head.len() as int + 1) =~= data);
    assert(head.take(head.len() as int) =~= head);
}

/// A chunk belongs to image `id`: the one it names, whatever else is in progress;
/// where it names none, the one of the last chunk while any transfer is in
/// progress, and otherwise image zero.
pub open spec fn belongs_to(state: StorageState, params: KittyParams, id: u32) -> bool {
    &&& params.image_id != 0 ==> id == params.image_id
    &&& params.image_id == 0 && (exists|k: u32| #[trigger] state.pending.contains_key(k)) ==> id
        == state.last_transfer_id
    &&& params.image_id == 0 && (forall|k: u32| !#[trigger] state.pending.contains_key(k)) ==> id
        == 0
}

/// The transfer of image `id`, with one more chunk, is `whole`: the parameters of
/// its first chunk, and the data of all of them in order.
pub open spec fn adds_up_to(
    state: StorageState,
    id: u32,
    params: KittyParams,
    data: Seq<u8>,
    whole: Transfer,
) -> bool {
    if state.pending.contains_key(id) {
        &&& whole.params == state.pending[id].params
        &&& whole.data == state.pending[id].data + data
    } else {
        &&& whole.params == params
        &&& whole.data == data
    }
}

/// The image of a chunk and the transfer that it makes up are just these.
pub proof fn law_image_of_chunk(
    state: StorageState,
    params: KittyParams,
    data: Seq<u8>,
    id: u32,
    whole: Transfer,
)
    ensures
        state.transfer_id(params) == id <==> belongs_to(state, params, id),
        state.extended(id, params, data) == whole <==> adds_up_to(state, id, params, data, whole),
        params.image_id != 0 ==> state.transfer_id(params) == params.image_id,
        params.image_id == 0 && state.pending.contains_key(id) ==> state.transfer_id(params)
            == state.last_transfer_id,
        params.image_id == 0 && state.pending == Map::<u32, Transfer>::empty()
            ==> state.transfer_id(params) == 0,
        state.pending.contains_key(id) ==> {
            &&& state.extended(id, params, data).params == state.pending[id].params
            &&& state.extended(id, params, data).data == state.pending[id].data + data
        },
        !state.pending.contains_key(id) ==> {
            &&& state.extended(id, params, data).params == params
            &&& state.extended(id, params, data).data == data
        },
        state.recorded(params).last_transfer_id == state.transfer_id(params),
        state.recorded(params).images == state.images,
        state.recorded(params).pending == state.pending,
        state.recorded(params).placements == state.placements,
        state.recorded(params).current_display == state.current_display,
        state.recorded(params).had_delete == state.had_delete,
{
    if state.pending.is_empty() {
        assert forall|k: u32| !#[trigger] state.pending.contains_key(k) by {
            assert(!state.pending.dom().contains(k));
        }
    } else if forall|k: u32| !#[trigger] state.pending.contains_key(k) {
        assert forall|k: u32| !#[trigger] state.pending.dom().contains(k) by {
            assert(!state.pending.contains_key(k));
        }
        assert(state.pending.dom() =~= Set::<u32>::empty());
    }
    let e = state.extended(id, params, data);
    if adds_up_to(state, id, params, data, whole) {
        assert(e =~= whole);
    }
}

/// A chunk that others follow is kept with its transfer and not answered; it
/// becomes the last chunk, and changes nothing else.
pub proof fn law_chunk_is_kept(
    state: StorageState,
    params: KittyParams,
    data: Seq<u8>,
    id: u32,
    whole: Transfer,
)
    requires
        params.action == 0x74 || params.action == 0x54,
        params.more_chunks,
        belongs_to(state, params, id),
        adds_up_to(state, id, params, data, whole),
    ensures
        ({
            let (after, reply) = state.processed(params, data);
            &&& reply is None
            &&& after.pending.contains_key(id)
            &&& after.pending[id].params == whole.params
            &&& after.pending[id].data == whole.data
            &&& forall|k: u32|
                k != id ==> (#[trigger] after.pending.contains_key(k)
                    <==> state.pending.contains_key(k)) && after.pending[k] == state.pending[k]
            &&& after.last_transfer_id == id
            &&& after.images == state.images
            &&& after.placements == state.placements
            &&& after.current_display == state.current_display
            &&& after.had_delete == state.had_delete
            &&& state.transmitted(params, data) == (after, reply)
        }),
{
    law_image_of_chunk(state, params, data, id, whole);
}

/// The last chunk of a transfer ends it, and no other transfer. Where its data
/// makes an image, the image is stored under the number of the transfer, with its
/// own size, and in place of what was there; no other image changes. Where the
/// first chunk says `a=T` and not `U=1`, one placement is added after the others:
/// of this image, with its pixels, its size and the layer of the first chunk, yet
/// without a position or a size in cells, to be put where the cursor is. At level
/// 0 the answer is `OK`, with the same number.
pub proof fn law_transfer_makes_image(
    state: StorageState,
    params: KittyParams,
    data: Seq<u8>,
    id: u32,
    whole: Transfer,
    raster: Raster,
)
    requires
        params.action == 0x74 || params.action == 0x54,
        !params.more_chunks,
        belongs_to(state, params, id),
        adds_up_to(state, id, params, data, whole),
        transfer_result(whole.params, whole.data) == Ok::<Raster, TransferError>(raster),
    ensures
        ({
            let (after, reply) = state.processed(params, data);
            &&& !after.pending.contains_key(id)
            &&& forall|k: u32|
                k != id ==> (#[trigger] after.pending.contains_key(k)
                    <==> state.pending.contains_key(k)) && after.pending[k] == state.pending[k]
            &&& after.last_transfer_id == id
            &&& after.images.contains_key(id)
            &&& after.images[id].raster == raster
            &&& after.images[id].width == raster.width
            &&& after.images[id].height == raster.height
            &&& forall|k: u32|
                k != id ==> (#[trigger] after.images.contains_key(k)
                    <==> state.images.contains_key(k)) && after.images[k] == state.images[k]
            &&& whole.params.action == 0x54 && !whole.params.unicode_place ==> {
                let n = state.placements.len() as int;
                &&& after.placements.len() == n + 1
                &&& after.placements.take(n) == state.placements
                &&& after.placements[n].image_id == id
                &&& after.placements[n].raster == raster
                &&& after.placements[n].width == raster.width
                &&& after.placements[n].height == raster.height
                &&& after.placements[n].z_index == whole.params.z_index
                &&& after.placements[n].needs_cursor_position
                &&& !after.placements[n].use_unicode_placeholders
                &&& !after.placements[n].is_clear
                &&& after.placements[n].col == 0
                &&& after.placements[n].row == 0
                &&& after.placements[n].cols == 0
                &&& after.placements[n].rows == 0
            }
            &&& whole.params.action != 0x54 || whole.params.unicode_place ==> after.placements
                == state.placements
            &&& after.current_display == state.current_display
            &&& after.had_delete == state.had_delete
            &&& reply == if whole.params.quiet == 0 {
                Some(
                    seq![0x1b, 0x5f, 0x47, 0x69, 0x3d] + decimal_digits(id as nat) + seq![
                        0x3b,
                        0x4f,
                        0x4b,
                        0x1b,
                        0x5c,
                    ],
                )
            } else {
                None
            }
            &&& state.transmitted(params, data) == (after, reply)
        }),
{
    law_image_of_chunk(state, params, data, id, whole);
    law_finished_with_image(
        StorageState { pending: state.pending.remove(id), ..state.recorded(params) },
        id,
        whole.params,
        raster,
    );
}

/// The last chunk of a transfer ends it, and no other transfer, even where its
/// data makes no image. Then no image and no placement changes, and at levels 0
/// and 1 the answer is the reason, with the number of the transfer.
pub proof fn law_transfer_makes_no_image(
    state: StorageState,
    params: KittyParams,
    data: Seq<u8>,
    id: u32,
    whole: Transfer,
    e: TransferError,
)
    requires
        params.action == 0x74 || params.action == 0x54,
        !params.more_chunks,
        belongs_to(state, params, id),
        adds_up_to(state, id, params, data, whole),
        transfer_result(whole.params, whole.data) == Err::<Raster, TransferError>(e),
    ensures
        ({
            let (after, reply) = state.processed(params, data);
            &&& !after.pending.contains_key(id)
            &&& forall|k: u32|
                k != id ==> (#[trigger] after.pending.contains_key(k)
                    <==> state.pending.contains_key(k)) && after.pending[k] == state.pending[k]
            &&& after.last_transfer_id == id
            &&& after.images == state.images
            &&& after.placements == state.placements
            &&& after.current_display == state.current_display
            &&& after.had_delete == state.had_delete
            &&& reply == if whole.params.quiet <= 1 {
                Some(
                    seq![0x1b, 0x5f, 0x47, 0x69, 0x3d] + decimal_digits(id as nat) + seq![0x3b]
                        + e.text() + seq![0x1b, 0x5c],
                )
            } else {
                None
            }
            &&& state.transmitted(params, data) == (after, reply)
        }),
{
    law_image_of_chunk(state, params, data, id, whole);
    law_response_bytes(whole.params.quiet, id, e);
}

/// What the end of a transfer with an image does, field by field, for every
/// number, image and set of parameters.
pub proof fn law_finished_with_image(
    state: StorageState,
    id: u32,
    params: KittyParams,
    raster: Raster,
)
    ensures
        ({
            let (after, reply) = state.finished(id, params, Ok(raster));
            let n = state.placements.len() as int;
            &&& after.images.contains_key(id)
            &&& after.images[id].raster == raster
            &&& after.images[id].width == raster.width
            &&& after.images[id].height == raster.height
            &&& forall|k: u32|
                k != id ==> (#[trigger] after.images.contains_key(k)
                    <==> state.images.contains_key(k)) && after.images[k] == state.images[k]
            &&& params.action == 0x54 && !params.unicode_place ==> {
                &&& after.placements.len() == n + 1
                &&& after.placements.take(n) == state.placements
                &&& after.placements[n].image_id == id
                &&& after.placements[n].raster == raster
                &&& after.placements[n].width == raster.width
                &&& after.placements[n].height == raster.height
                &&& after.placements[n].z_index == params.z_index
                &&& after.placements[n].needs_cursor_position
                &&& !after.placements[n].use_unicode_placeholders
                &&& !after.placements[n].is_clear
                &&& after.placements[n].col == 0
                &&& after.placements[n].row == 0
                &&& after.placements[n].cols == 0
                &&& after.placements[n].rows == 0
            }
            &&& params.action != 0x54 || params.unicode_place ==> after.placements
                == state.placements
            &&& after.pending == state.pending
            &&& after.last_transfer_id == state.last_transfer_id
            &&& after.current_display == state.current_display
            &&& after.had_delete == state.had_delete
            &&& reply == if params.quiet == 0 {
                Some(
                    seq![0x1b, 0x5f, 0x47, 0x69, 0x3d] + decimal_digits(id as nat) + seq![
                        0x3b,
                        0x4f,
                        0x4b,
                        0x1b,
                        0x5c,
                    ],
                )
            } else {
                None
            }
        }),
{
    let after = state.finished(id, params, Ok(raster)).0;
    assert(displays(params) <==> params.action == 0x54 && !params.unicode_place);
    assert(displays(params) ==> after.placements.take(state.placements.len() as int)
        =~= state.placements);
    law_answer_bytes(id, ok_text());
    assert(answer(id, ok_text()) =~= seq![0x1b, 0x5f, 0x47, 0x69, 0x3d] + decimal_digits(id as nat)
        + seq![0x3b, 0x4f, 0x4b, 0x1b, 0x5c]);
}

/// What the end of a transfer without an image does: nothing but to answer with
/// the reason, at levels 0 and 1.
pub proof fn law_finished_with_error(
    state: StorageState,
    id: u32,
    params: KittyParams,
    e: TransferError,
)
    ensures
        state.finished(id, params, Err(e)).0 == state,
        state.finished(id, params, Err(e)).1 == if params.quiet <= 1 {
            Some(
                seq![0x1b, 0x5f, 0x47, 0x69, 0x3d] + decimal_digits(id as nat) + seq![0x3b]
                    + e.text() + seq![0x1b, 0x5c],
            )
        } else {
            None
        },
{
    law_response_bytes(params.quiet, id, e);
}

/// A transfer that names its image is about that image, whatever its number and
/// whatever else is in progress: a last chunk that makes an image stores it under
/// the number, places it with the number and is answered with the number; a chunk
/// that others follow is kept under the number.
pub proof fn law_named_transfer(state: StorageState, params: KittyParams, data: Seq<u8>)
    requires
        params.action == 0x74 || params.action == 0x54,
        params.image_id != 0,
        !state.pending.contains_key(params.image_id),
    ensures
        ({
            let id = params.image_id;
            let (after, reply) = state.processed(params, data);
            &&& after.last_transfer_id == id
            &&& params.more_chunks ==> {
                &&& after.pending.contains_key(id)
                &&& after.pending[id].params == params
                &&& after.pending[id].data == data
            }
            &&& !params.more_chunks ==> match transfer_result(params, data) {
                Ok(raster) => {
                    &&& after.images.contains_key(id)
                    &&& after.images[id].raster == raster
                    &&& after.placements.len() > state.placements.len()
                        ==> after.placements.last().image_id == id
                    &&& params.quiet == 0 ==> reply == Some(answer(id, seq![0x4f, 0x4b]))
                },
                Err(e) => {
                    &&& after.images == state.images
                    &&& params.quiet <= 1 ==> reply == Some(answer(id, e.text()))
                },
            }
        }),
{
    law_image_of_chunk(state, params, data, params.image_id, Transfer { params, data });
    law_answer_bytes(params.image_id, ok_text());
}

/// `d=a` and `d=A` delete everything and say so, `d=i` and `d=I` the one image that
/// is named, and every other letter everything without saying so. No deletion is
/// answered, takes back a placement, or forgets which chunk was the last.
pub proof fn law_deletion_in_full(state: StorageState, params: KittyParams, data: Seq<u8>)
    ensures
        ({
            let what = params.delete_what;
            let by_id = what == 0x69 || what == 0x49;
            let after = state.deleted(params);
            &&& params.action == 0x64 ==> state.processed(params, data).0 == after
                && state.processed(params, data).1 is None
            &&& after.last_transfer_id == state.last_transfer_id
            &&& after.placements == state.placements
            &&& after.current_display == state.current_display
            &&& after.had_delete == (state.had_delete || what == 0x61 || what == 0x41)
            &&& forall|id: u32| #[trigger]
                after.images.contains_key(id) <==> by_id && id != params.image_id
                    && state.images.contains_key(id)
            &&& forall|id: u32| #[trigger]
                after.pending.contains_key(id) <==> by_id && id != params.image_id
                    && state.pending.contains_key(id)
            &&& forall|id: u32| #[trigger]
                after.images.contains_key(id) ==> after.images[id] == state.images[id]
            &&& forall|id: u32| #[trigger]
                after.pending.contains_key(id) ==> after.pending[id] == state.pending[id]
        }),
{
}

/// A query is answered at level 0 with `OK` and the number that it names, and
/// changes nothing; no other action but `t`, `T` and `d` does anything at all.
pub proof fn law_other_actions_in_full(state: StorageState, params: KittyParams, data: Seq<u8>)
    requires
        params.action != 0x74,
        params.action != 0x54,
        params.action != 0x64,
    ensures
        state.processed(params, data).0 == state,
        state.processed(params, data).1 == if params.action == 0x71 && params.quiet == 0 {
            Some(
                seq![0x1b, 0x5f, 0x47, 0x69, 0x3d] + decimal_digits(params.image_id as nat) + seq![
                    0x3b,
                ] + seq![0x4f, 0x4b] + seq![0x1b, 0x5c],
            )
        } else {
            None
        },
{
    law_answer_bytes(params.image_id, ok_text());
}

/// A new storage holds nothing.
pub proof fn law_empty_storage(id: u32)
    ensures
        !StorageState::empty().images.contains_key(id),
        !StorageState::empty().pending.contains_key(id),
        StorageState::empty().last_transfer_id == 0,
        StorageState::empty().placements.len() == 0,
        StorageState::empty().current_display.len() == 0,
        !StorageState::empty().had_delete,
{
}

/// Well-formed images are those with an area, four bytes for each of their
/// pixels, and the size that they are stored with.
pub proof fn law_stored_images_well_formed(state: StorageState, id: u32)
    requires
        state.images_well_formed(),
        state.images.contains_key(id),
    ensures
        state.images[id].width > 0,
        state.images[id].height > 0,
        state.images[id].width == state.images[id].raster.width,
        state.images[id].height == state.images[id].raster.height,
        state.images[id].raster.pixels.len() >= 4 * state.images[id].width
            * state.images[id].height,
{
}

/// What a stored image, a placement, a list of placements and an answer hold is
/// what is in them, field for field.
pub proof fn law_views_hold_all(
    image: StoredImage,
    p: ImagePlacement,
    list: Seq<ImagePlacement>,
    reply: Option<Vec<u8>>,
)
    ensures
        image@.raster == image.render_image@,
        image@.width == image.width,
        image@.height == image.height,
        p@.image_id == p.image_id,
        p@.raster == p.render_image@,
        p@.width == p.width,
        p@.height == p.height,
        p@.use_unicode_placeholders == p.use_unicode_placeholders,
        p@.z_index == p.z_index,
        p@.needs_cursor_position == p.needs_cursor_position,
        p@.col == p.col,
        p@.row == p.row,
        p@.cols == p.cols,
        p@.rows == p.rows,
        p@.is_clear == p.is_clear,
        placement_states(list).len() == list.len(),
        forall|k: int| 0 <= k < list.len() ==> #[trigger] placement_states(list)[k] == list[k]@,
        bytes_of(reply) is Some <==> reply is Some,
        reply is Some ==> bytes_of(reply)->0 == reply->0@,
{
}

} // verus!
