//! Received images, chunked transfers in progress, and placements.

use std::collections::HashMap;
use std::sync::Arc;

use vstd::prelude::*;

use crate::apc::framed;
use crate::bytes::{
    append, find_byte, length_before, BACKSLASH, EQUALS, ESC, LOWER_A, LOWER_D, LOWER_I, LOWER_Q,
    LOWER_T, SEMICOLON, UNDERSCORE, UPPER_A, UPPER_G, UPPER_I, UPPER_K, UPPER_O, UPPER_T,
};
use crate::decimal::{decimal_digits, push_decimal};
use crate::params::{parsed, KittyParams};
use crate::raster::{
    image_from_transfer, outcome_view, transfer_result, Raster, RenderImage, TransferError,
};

verus! {

broadcast use vstd::std_specs::hash::group_hash_axioms;

/// `Arc::clone`, which gives another pointer to the same value.
#[verifier::external_body]
fn share(image: &Arc<RenderImage>) -> (r: Arc<RenderImage>)
    ensures
        r == *image,
{
    Arc::clone(image)
}

/// A decoded image in store.
pub struct StoredImage {
    pub render_image: Arc<RenderImage>,
    pub width: u32,
    pub height: u32,
}

/// What a stored image holds.
#[verifier::ext_equal]
pub struct StoredState {
    pub raster: Raster,
    pub width: u32,
    pub height: u32,
}

impl View for StoredImage {
    type V = StoredState;

    open spec fn view(&self) -> StoredState {
        StoredState { raster: self.render_image@, width: self.width, height: self.height }
    }
}

/// An image to be shown.
pub struct ImagePlacement {
    pub image_id: u32,
    pub render_image: Arc<RenderImage>,
    pub width: u32,
    pub height: u32,
    pub use_unicode_placeholders: bool,
    pub z_index: i32,
    /// The position is still to be taken from the terminal's cursor.
    pub needs_cursor_position: bool,
    /// Position in cells.
    pub col: u16,
    pub row: u16,
    /// Size in cells.
    pub cols: u16,
    pub rows: u16,
    /// Not an image but the order to clear all of them.
    pub is_clear: bool,
}

/// What a placement holds.
#[verifier::ext_equal]
pub struct PlacementState {
    pub image_id: u32,
    pub raster: Raster,
    pub width: u32,
    pub height: u32,
    pub use_unicode_placeholders: bool,
    pub z_index: i32,
    pub needs_cursor_position: bool,
    pub col: u16,
    pub row: u16,
    pub cols: u16,
    pub rows: u16,
    pub is_clear: bool,
}

impl View for ImagePlacement {
    type V = PlacementState;

    open spec fn view(&self) -> PlacementState {
        PlacementState {
            image_id: self.image_id,
            raster: self.render_image@,
            width: self.width,
            height: self.height,
            use_unicode_placeholders: self.use_unicode_placeholders,
            z_index: self.z_index,
            needs_cursor_position: self.needs_cursor_position,
            col: self.col,
            row: self.row,
            cols: self.cols,
            rows: self.rows,
            is_clear: self.is_clear,
        }
    }
}

impl Clone for ImagePlacement {
    fn clone(&self) -> (r: Self)
        ensures
            r == *self,
    {
        ImagePlacement {
            image_id: self.image_id,
            render_image: share(&self.render_image),
            width: self.width,
            height: self.height,
            use_unicode_placeholders: self.use_unicode_placeholders,
            z_index: self.z_index,
            needs_cursor_position: self.needs_cursor_position,
            col: self.col,
            row: self.row,
            cols: self.cols,
            rows: self.rows,
            is_clear: self.is_clear,
        }
    }
}

/// The images received so far and the transfers in progress.
pub struct ImageStorage {
    images: HashMap<u32, StoredImage>,
    /// For each image, the parameters of its first chunk and the base64 data so far.
    pending: HashMap<u32, (KittyParams, Vec<u8>)>,
    /// The image of the last transfer, for continuation chunks that omit `i`.
    last_transfer_id: u32,
    /// New placements, for the renderer to take.
    pub placements: Vec<ImagePlacement>,
    /// What is on display until it is replaced.
    pub current_display: Vec<ImagePlacement>,
    /// All images have been deleted.
    pub had_delete: bool,
}

/// A transfer in progress: the parameters of its first chunk, and its data so far.
#[verifier::ext_equal]
pub struct Transfer {
    pub params: KittyParams,
    pub data: Seq<u8>,
}

/// What a storage holds.
#[verifier::ext_equal]
pub struct StorageState {
    pub images: Map<u32, StoredState>,
    pub pending: Map<u32, Transfer>,
    pub last_transfer_id: u32,
    pub placements: Seq<PlacementState>,
    pub current_display: Seq<PlacementState>,
    pub had_delete: bool,
}

/// What a list of placements holds.
pub open spec fn placement_states(list: Seq<ImagePlacement>) -> Seq<PlacementState> {
    list.map_values(|p: ImagePlacement| p@)
}

impl View for ImageStorage {
    type V = StorageState;

    closed spec fn view(&self) -> StorageState {
        StorageState {
            images: self.images@.map_values(|s: StoredImage| s@),
            pending: self.pending@.map_values(
                |t: (KittyParams, Vec<u8>)| Transfer { params: t.0, data: t.1@ },
            ),
            last_transfer_id: self.last_transfer_id,
            placements: placement_states(self.placements@),
            current_display: placement_states(self.current_display@),
            had_delete: self.had_delete,
        }
    }
}

/// The word of success, `OK`.
pub open spec fn ok_text() -> Seq<u8> {
    seq![UPPER_O, UPPER_K]
}

/// An answer about an image, as it travels.
pub open spec fn answer(id: u32, text: Seq<u8>) -> Seq<u8> {
    framed((seq![LOWER_I, EQUALS] + decimal_digits(id as nat)).push(SEMICOLON) + text)
}

/// The answer that a client gets: none from level 2 on, and at level 1 only failures.
pub open spec fn response(quiet: u8, id: u32, result: Result<(), TransferError>) -> Option<
    Seq<u8>,
> {
    match result {
        Ok(_) => if quiet >= 1 {
            None
        } else {
            Some(answer(id, ok_text()))
        },
        Err(e) => if quiet >= 2 {
            None
        } else {
            Some(answer(id, e.text()))
        },
    }
}

/// The placement that a new image gets, its position being left to the cursor.
pub open spec fn placed(id: u32, raster: Raster, z_index: i32) -> PlacementState {
    PlacementState {
        image_id: id,
        raster,
        width: raster.width,
        height: raster.height,
        use_unicode_placeholders: false,
        z_index,
        needs_cursor_position: true,
        col: 0,
        row: 0,
        cols: 0,
        rows: 0,
        is_clear: false,
    }
}

/// A transfer that also displays its image, and not by placeholder characters.
pub open spec fn displays(params: KittyParams) -> bool {
    params.action == UPPER_T && !params.unicode_place
}

/// The bytes of an answer.
pub open spec fn bytes_of(r: Option<Vec<u8>>) -> Option<Seq<u8>> {
    match r {
        Some(v) => Some(v@),
        None => None,
    }
}

impl StorageState {
    /// Nothing at all.
    pub open spec fn empty() -> StorageState {
        StorageState {
            images: Map::empty(),
            pending: Map::empty(),
            last_transfer_id: 0,
            placements: Seq::empty(),
            current_display: Seq::empty(),
            had_delete: false,
        }
    }

    /// The image that a chunk belongs to: the one it names, or, where it names
    /// none and a transfer is in progress, the one of the last transfer.
    pub open spec fn transfer_id(self, params: KittyParams) -> u32 {
        if params.image_id == 0 && !self.pending.is_empty() {
            self.last_transfer_id
        } else {
            params.image_id
        }
    }

    /// Remembers the image that a chunk belongs to.
    pub open spec fn recorded(self, params: KittyParams) -> StorageState {
        StorageState { last_transfer_id: self.transfer_id(params), ..self }
    }

    /// The transfer of image `id` once it has one more chunk.
    pub open spec fn extended(self, id: u32, params: KittyParams, data: Seq<u8>) -> Transfer {
        if self.pending.contains_key(id) {
            Transfer { data: self.pending[id].data + data, ..self.pending[id] }
        } else {
            Transfer { params, data }
        }
    }

    /// The state after a transfer that gave `result`, and the answer to it.
    pub open spec fn finished(
        self,
        id: u32,
        params: KittyParams,
        result: Result<Raster, TransferError>,
    ) -> (StorageState, Option<Seq<u8>>) {
        match result {
            Ok(raster) => (
                StorageState {
                    images: self.images.insert(
                        id,
                        StoredState { raster, width: raster.width, height: raster.height },
                    ),
                    placements: if displays(params) {
                        self.placements.push(placed(id, raster, params.z_index))
                    } else {
                        self.placements
                    },
                    ..self
                },
                response(params.quiet, id, Ok(())),
            ),
            Err(e) => (self, response(params.quiet, id, Err(e))),
        }
    }

    /// The state after a chunk, and the answer to it.
    pub open spec fn transmitted(self, params: KittyParams, data: Seq<u8>) -> (
        StorageState,
        Option<Seq<u8>>,
    ) {
        let id = self.transfer_id(params);
        let transfer = self.extended(id, params, data);
        if params.more_chunks {
            (
                StorageState { pending: self.pending.insert(id, transfer), ..self.recorded(params) },
                None,
            )
        } else {
            StorageState { pending: self.pending.remove(id), ..self.recorded(params) }.finished(
                id,
                transfer.params,
                transfer_result(transfer.params, transfer.data),
            )
        }
    }

    /// The state after a deletion. What is to be shown stays.
    pub open spec fn deleted(self, params: KittyParams) -> StorageState {
        if params.delete_what == LOWER_A || params.delete_what == UPPER_A {
            StorageState { images: Map::empty(), pending: Map::empty(), had_delete: true, ..self }
        } else if params.delete_what == LOWER_I || params.delete_what == UPPER_I {
            StorageState {
                images: self.images.remove(params.image_id),
                pending: self.pending.remove(params.image_id),
                ..self
            }
        } else {
            StorageState { images: Map::empty(), pending: Map::empty(), ..self }
        }
    }

    /// The state after a command, and the answer to it.
    pub open spec fn processed(self, params: KittyParams, data: Seq<u8>) -> (
        StorageState,
        Option<Seq<u8>>,
    ) {
        if params.action == LOWER_Q {
            (self, response(params.quiet, params.image_id, Ok(())))
        } else if params.action == LOWER_T || params.action == UPPER_T {
            self.transmitted(params, data)
        } else if params.action == LOWER_D {
            (self.deleted(params), None)
        } else {
            (self, None)
        }
    }

    /// Every stored image has an area, bytes for all of its pixels, and the
    /// size that it is stored with.
    pub open spec fn images_well_formed(self) -> bool {
        forall|id: u32| #[trigger]
            self.images.contains_key(id) ==> {
                let image = self.images[id];
                &&& image.raster.well_formed()
                &&& image.width == image.raster.width
                &&& image.height == image.raster.height
            }
    }
}

/// The parameters in a payload: what stands before its first `;`.
pub open spec fn payload_params(payload: Seq<u8>) -> KittyParams {
    parsed(payload.take(length_before(payload, SEMICOLON) as int))
}

/// The data in a payload: what stands after its first `;`.
pub open spec fn payload_data(payload: Seq<u8>) -> Seq<u8> {
    if length_before(payload, SEMICOLON) < payload.len() {
        payload.skip(length_before(payload, SEMICOLON) as int + 1)
    } else {
        Seq::empty()
    }
}

/// Writes an answer.
fn make_answer(id: u32, text: &[u8]) -> (r: Vec<u8>)
    ensures
        r@ == answer(id, text@),
{
    let mut out: Vec<u8> = vec![ESC, UNDERSCORE, UPPER_G, LOWER_I, EQUALS];
    push_decimal(&mut out, id);
    out.push(SEMICOLON);
    append(&mut out, text);
    out.push(ESC);
    out.push(BACKSLASH);
    assert(out@ =~= answer(id, text@));
    out
}

impl ImageStorage {
    /// A storage with nothing in it.
    pub fn new() -> (r: Self)
        ensures
            r@ == StorageState::empty(),
            r@.images_well_formed(),
    {
        let r: ImageStorage = ImageStorage {
            images: HashMap::new(),
            pending: HashMap::new(),
            last_transfer_id: 0,
            placements: Vec::new(),
            current_display: Vec::new(),
            had_delete: false,
        };
        assert(r@ =~= StorageState::empty());
        r
    }

    /// Processes the payload of a command, everything between `ESC _ G` and
    /// `ESC \`. Returns the answer for the client, if there is to be one.
    pub fn process_command(&mut self, payload: &[u8]) -> (r: Option<Vec<u8>>)
        ensures
            (final(self)@, bytes_of(r)) == old(self)@.processed(
                payload_params(payload@),
                payload_data(payload@),
            ),
            old(self)@.images_well_formed() ==> final(self)@.images_well_formed(),
    {
        let n: usize = find_byte(payload, SEMICOLON);
        let data: &[u8] = if n < payload.len() {
            &payload[n + 1..payload.len()]
        } else {
            &payload[n..n]
        };
        let params: KittyParams = KittyParams::parse(&payload[0..n]);
        assert(payload@.subrange(0, n as int) =~= payload@.take(n as int));
        assert(data@ =~= payload_data(payload@));
        if params.action == LOWER_Q {
            self.handle_query(&params)
        } else if params.action == LOWER_T || params.action == UPPER_T {
            self.handle_transmit(params, data)
        } else if params.action == LOWER_D {
            self.handle_delete(&params);
            None
        } else {
            None
        }
    }

    /// Answers that graphics are supported.
    pub fn handle_query(&self, params: &KittyParams) -> (r: Option<Vec<u8>>)
        ensures
            bytes_of(r) == response(params.quiet, params.image_id, Ok(())),
    {
        self.make_response(params.quiet, params.image_id, Ok(()))
    }

    /// Takes a chunk of a transfer, and finishes the transfer with its last one.
    pub fn handle_transmit(&mut self, params: KittyParams, data: &[u8]) -> (r: Option<Vec<u8>>)
        ensures
            (final(self)@, bytes_of(r)) == old(self)@.transmitted(params, data@),
            old(self)@.images_well_formed() ==> final(self)@.images_well_formed(),
    {
        let ghost before = self@;
        let id: u32 = if params.image_id == 0 && !self.pending.is_empty() {
            self.last_transfer_id
        } else {
            params.image_id
        };
        self.last_transfer_id = id;
        assert(self.pending@.is_empty() == before.pending.is_empty());
        assert(id == before.transfer_id(params));
        assert(self@ =~= before.recorded(params));

        if params.more_chunks {
            let entry: &mut (KittyParams, Vec<u8>) = self.pending.entry(id).or_insert(
                (params, Vec::new()),
            );
            append(&mut entry.1, data);
            assert(self@ =~= before.transmitted(params, data@).0);
            return None;
        }
        let (first_params, full_data): (KittyParams, Vec<u8>) = match self.pending.remove(&id) {
            Some((first_params, mut accumulated)) => {
                append(&mut accumulated, data);
                (first_params, accumulated)
            },
            None => {
                let mut single: Vec<u8> = Vec::new();
                append(&mut single, data);
                assert(single@ =~= data@);
                (params, single)
            },
        };
        assert(before.extended(id, params, data@) =~= (Transfer {
            params: first_params,
            data: full_data@,
        }));
        assert(self@ =~= StorageState {
            pending: before.pending.remove(id),
            ..before.recorded(params)
        });
        let result: Result<RenderImage, TransferError> = image_from_transfer(
            &first_params,
            full_data.as_slice(),
        );
        self.finish_transfer(id, first_params, result)
    }

    /// Ends a transfer with what its data gave: stores the image, places it if it
    /// is to be displayed and placeholder characters will not do it, and answers.
    pub fn finish_transfer(
        &mut self,
        id: u32,
        params: KittyParams,
        result: Result<RenderImage, TransferError>,
    ) -> (r: Option<Vec<u8>>)
        ensures
            (final(self)@, bytes_of(r)) == old(self)@.finished(id, params, outcome_view(result)),
            old(self)@.images_well_formed() && (result matches Ok(image)
                ==> image@.well_formed()) ==> final(self)@.images_well_formed(),
    {
        let ghost before = self@;
        match result {
            Ok(image) => {
                let width: u32 = image.width;
                let height: u32 = image.height;
                let render_image: Arc<RenderImage> = Arc::new(image);
                self.images.insert(
                    id,
                    StoredImage { render_image: share(&render_image), width, height },
                );
                if params.action == UPPER_T && !params.unicode_place {
                    self.placements.push(
                        ImagePlacement {
                            image_id: id,
                            render_image,
                            width,
                            height,
                            use_unicode_placeholders: false,
                            z_index: params.z_index,
                            needs_cursor_position: true,
                            col: 0,
                            row: 0,
                            cols: 0,
                            rows: 0,
                            is_clear: false,
                        },
                    );
                }
                assert(self@ =~= before.finished(id, params, Ok(image@)).0);
                self.make_response(params.quiet, id, Ok(()))
            },
            Err(e) => self.make_response(params.quiet, id, Err(e)),
        }
    }

    /// Deletes images and transfers. The placements stay: the renderer may not
    /// have taken them yet.
    pub fn handle_delete(&mut self, params: &KittyParams)
        ensures
            final(self)@ == old(self)@.deleted(*params),
            old(self)@.images_well_formed() ==> final(self)@.images_well_formed(),
    {
        let ghost before = self@;
        if params.delete_what == LOWER_A || params.delete_what == UPPER_A {
            self.images.clear();
            self.pending.clear();
            self.had_delete = true;
        } else if params.delete_what == LOWER_I || params.delete_what == UPPER_I {
            self.images.remove(&params.image_id);
            self.pending.remove(&params.image_id);
        } else {
            self.images.clear();
            self.pending.clear();
        }
        assert(self@ =~= before.deleted(*params));
    }

    /// Answers a command, as far as the client wants to hear of it.
    fn make_response(&self, quiet: u8, id: u32, result: Result<(), TransferError>) -> (r: Option<
        Vec<u8>,
    >)
        ensures
            bytes_of(r) == response(quiet, id, result),
    {
        if quiet >= 2 {
            return None;
        }
        match result {
            Ok(_) => {
                if quiet >= 1 {
                    None
                } else {
                    Some(make_answer(id, vec![UPPER_O, UPPER_K].as_slice()))
                }
            },
            Err(e) => Some(make_answer(id, e.code().as_slice())),
        }
    }

    /// Looks up a stored image.
    pub fn get_image(&self, id: u32) -> (r: Option<&StoredImage>)
        ensures
            match r {
                Some(image) => self@.images.contains_key(id) && image@ == self@.images[id],
                None => !self@.images.contains_key(id),
            },
    {
        self.images.get(&id)
    }

    /// Whether any images are stored.
    pub fn has_images(&self) -> (r: bool)
        ensures
            r == !self@.images.is_empty(),
    {
        !self.images.is_empty()
    }
}

/// A storage holds what is in its fields: an image under each number that one is
/// stored under, a transfer under each number that one is in progress for, and
/// the rest as it stands.
proof fn law_storage_holds_its_fields(storage: ImageStorage, id: u32)
    ensures
        storage@.images.contains_key(id) <==> storage.images@.contains_key(id),
        storage.images@.contains_key(id) ==> storage@.images[id] == storage.images@[id]@,
        storage@.pending.contains_key(id) <==> storage.pending@.contains_key(id),
        storage.pending@.contains_key(id) ==> storage@.pending[id].params
            == storage.pending@[id].0 && storage@.pending[id].data == storage.pending@[id].1@,
        storage@.last_transfer_id == storage.last_transfer_id,
        storage@.placements.len() == storage.placements@.len(),
        forall|k: int|
            0 <= k < storage.placements@.len() ==> #[trigger] storage@.placements[k]
                == storage.placements@[k]@,
        storage@.current_display.len() == storage.current_display@.len(),
        forall|k: int|
            0 <= k < storage.current_display@.len() ==> #[trigger] storage@.current_display[k]
                == storage.current_display@[k]@,
        storage@.had_delete == storage.had_delete,
{
}

} // verus!
