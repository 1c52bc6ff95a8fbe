//! The session's data path: the stream decoder and the outbound dispatcher.
//!
//! Inbound, the server sends frames
//!
//! ```text
//! CommandId(i32) DataLength(i32) [StringLength(i32)] Payload
//! ```
//!
//! little-endian throughout. The string length is there when the id is `-1`,
//! which announces the manifest text, or when the manifest gives the id the
//! wire type `String`; the payload is then that many bytes of UTF-8. Any
//! other payload has the width of its wire type. The bytes arrive in chunks
//! of any size. The decoder keeps what it has of the current chunk and
//! interprets a chunk once it is complete, so that how the stream was cut
//! into reads makes no difference to what is decoded.

use crate::error::{DecodeError, ManifestError, PayloadError};
use crate::event_args::{
    received_views, Received, ReceivedDataArgs, ReceivedManifestArgs, ReceivedView,
};
use crate::manifest::{
    data_type_for_id, lemma_lookup_id, lemma_lookup_path, lookup_id, lookup_path, parse, EntryView,
    Manifest,
};
use crate::outbound::{Command, Outbound, OutboundView};
use crate::typed_value::{
    le_value4, read_le_i32, signed32, string_from_utf8, Type, TypedValue, Value,
};
use vstd::prelude::*;
use vstd::utf8::{decode_utf8, valid_utf8};

verus! {

/// The part of a frame that the decoder awaits.
#[derive(Debug, Clone, Copy, PartialEq, Eq, Structural)]
pub enum ChunkType {
    CommandId,
    DataLength,
    StringLength,
    Data,
}

/// The state of the decoder.
pub struct Cursor {
    /// The manifest held, if one has arrived.
    pub manifest: Option<Seq<EntryView>>,
    /// The chunk awaited.
    pub next: ChunkType,
    /// The id of the frame being read.
    pub id: i32,
    /// The data length of the frame being read.
    pub data_length: i32,
    /// The string length of the frame being read.
    pub string_length: i32,
    /// The wire type of the payload awaited.
    pub kind: Type,
    /// The bytes of the chunk awaited that have arrived.
    pub pending: Seq<u8>,
}

/// The 32-bit integer that four little-endian bytes carry.
pub open spec fn le_i32(chunk: Seq<u8>) -> i32 {
    signed32(le_value4(chunk)) as i32
}

/// The wire type of the payload of a frame with this id: text for the
/// manifest id `-1`, else what the manifest held says.
pub open spec fn resolve(manifest: Option<Seq<EntryView>>, id: i32) -> Result<Type, DecodeError> {
    if id == -1 {
        Ok(Type::String)
    } else {
        match manifest {
            None => Err(DecodeError::Schema(ManifestError::NoManifest())),
            Some(entries) => match data_type_for_id(entries, id) {
                Ok(kind) => Ok(kind),
                Err(e) => Err(DecodeError::Schema(e)),
            },
        }
    }
}

impl Cursor {
    /// The decoder before any byte has arrived.
    pub open spec fn start() -> Cursor {
        Cursor {
            manifest: None,
            next: ChunkType::CommandId,
            id: 0,
            data_length: 0,
            string_length: 0,
            kind: Type::Boolean,
            pending: Seq::empty(),
        }
    }

    /// The length of the chunk awaited.
    pub open spec fn target(self) -> int {
        match self.next {
            ChunkType::Data => match self.kind.spec_width() {
                Some(width) => width as int,
                None => self.string_length as int,
            },
            _ => 4,
        }
    }

    /// The number of bytes that the chunk awaited still lacks.
    pub open spec fn wanted(self) -> int {
        self.target() - self.pending.len()
    }

    /// The chunk awaited lacks at least one byte.
    pub open spec fn wf(self) -> bool {
        self.pending.len() < self.target()
    }

    /// Whether a text payload is the manifest text: it is under the id `-1`,
    /// and as long as no manifest is held.
    pub open spec fn awaits_manifest(self) -> bool {
        self.kind == Type::String && (self.id == -1 || self.manifest is None)
    }

    /// What the complete payload `payload` is decoded to.
    pub open spec fn delivery(self, payload: Seq<u8>) -> ReceivedView {
        if self.awaits_manifest() {
            if !valid_utf8(payload) {
                ReceivedView::Failed(DecodeError::Payload(PayloadError::InvalidUtf8))
            } else {
                match parse(decode_utf8(payload)) {
                    Some(entries) => ReceivedView::Manifest(entries),
                    None => ReceivedView::Failed(
                        DecodeError::Payload(PayloadError::MalformedManifest),
                    ),
                }
            }
        } else {
            match Value::decoding(self.kind, payload) {
                Ok(value) => ReceivedView::Data(self.id, value),
                Err(e) => ReceivedView::Failed(DecodeError::Payload(e)),
            }
        }
    }

    /// The state after the payload `payload`: the decoder awaits the next
    /// frame, and holds the manifest that the payload brought, if it
    /// brought one.
    pub open spec fn delivered(self, payload: Seq<u8>) -> Cursor {
        Cursor {
            next: ChunkType::CommandId,
            pending: Seq::empty(),
            manifest: match self.delivery(payload) {
                ReceivedView::Manifest(entries) => Some(entries),
                _ => self.manifest,
            },
            ..self
        }
    }

    /// The state after the chunk awaited is complete with the bytes `chunk`,
    /// and what the chunk completed, if anything.
    ///
    /// A data length whose id the schema cannot resolve is reported and the
    /// decoder goes on awaiting a data length. A string length that is not
    /// positive completes its frame with an empty payload.
    #[verifier::opaque]
    pub open spec fn completed(self, chunk: Seq<u8>) -> (Cursor, Option<ReceivedView>) {
        match self.next {
            ChunkType::CommandId => (
                Cursor {
                    next: ChunkType::DataLength,
                    id: le_i32(chunk),
                    pending: Seq::empty(),
                    ..self
                },
                None,
            ),
            ChunkType::DataLength => {
                let read = Cursor { data_length: le_i32(chunk), pending: Seq::empty(), ..self };
                match resolve(self.manifest, self.id) {
                    Ok(kind) => (
                        Cursor {
                            next: if kind == Type::String {
                                ChunkType::StringLength
                            } else {
                                ChunkType::Data
                            },
                            kind,
                            ..read
                        },
                        None,
                    ),
                    Err(e) => (read, Some(ReceivedView::Failed(e))),
                }
            },
            ChunkType::StringLength => {
                let read = Cursor {
                    string_length: le_i32(chunk),
                    kind: Type::String,
                    pending: Seq::empty(),
                    ..self
                };
                if read.string_length <= 0 {
                    (read.delivered(Seq::empty()), Some(read.delivery(Seq::empty())))
                } else {
                    (Cursor { next: ChunkType::Data, ..read }, None)
                }
            },
            ChunkType::Data => (self.delivered(chunk), Some(self.delivery(chunk))),
        }
    }

    /// The state after the bytes `bytes` have arrived, and the frames that
    /// they completed, in order.
    pub open spec fn run(self, bytes: Seq<u8>) -> (Cursor, Seq<ReceivedView>)
        decreases bytes.len(),
    {
        let want = self.wanted();
        if bytes.len() == 0 || want <= 0 {
            (self, Seq::empty())
        } else if bytes.len() < want {
            (Cursor { pending: self.pending + bytes, ..self }, Seq::empty())
        } else {
            let step = self.completed(self.pending + bytes.take(want));
            let rest = step.0.run(bytes.skip(want));
            (
                rest.0,
                match step.1 {
                    Some(event) => seq![event] + rest.1,
                    None => rest.1,
                },
            )
        }
    }
}

/// Completing a chunk leaves the decoder awaiting a chunk that lacks at
/// least one byte.
pub proof fn lemma_completed_wf(cursor: Cursor, chunk: Seq<u8>)
    ensures
        cursor.completed(chunk).0.wf(),
        cursor.completed(chunk).0.pending.len() == 0,
{
    reveal(Cursor::completed);
}

/// What a complete chunk does depends on nothing of the bytes that were
/// pending: they are part of the chunk.
pub proof fn lemma_completed_ignores_pending(cursor: Cursor, pending: Seq<u8>, chunk: Seq<u8>)
    ensures
        (Cursor { pending, ..cursor }).completed(chunk) == cursor.completed(chunk),
{
    reveal(Cursor::completed);
}

/// Whatever bytes arrive, the decoder stays in order.
pub proof fn lemma_run_wf(cursor: Cursor, bytes: Seq<u8>)
    requires
        cursor.wf(),
    ensures
        cursor.run(bytes).0.wf(),
    decreases bytes.len(),
{
    let want = cursor.wanted();
    if bytes.len() > 0 && bytes.len() >= want {
        let step = cursor.completed(cursor.pending + bytes.take(want));
        lemma_completed_wf(cursor, cursor.pending + bytes.take(want));
        lemma_run_wf(step.0, bytes.skip(want));
    }
}

/// How the inbound stream is cut into reads makes no difference: feeding
/// `first` and then `second` leaves the decoder in the state, and yields
/// the frames, of feeding both at once.
pub proof fn lemma_run_split(cursor: Cursor, first: Seq<u8>, second: Seq<u8>)
    requires
        cursor.wf(),
    ensures
        cursor.run(first + second) == (
            cursor.run(first).0.run(second).0,
            cursor.run(first).1 + cursor.run(first).0.run(second).1,
        ),
    decreases first.len(),
{
    let want = cursor.wanted();
    let both = first + second;
    let after = cursor.run(first).0;
    if first.len() == 0 {
        assert(both =~= second);
        assert(Seq::<ReceivedView>::empty() + cursor.run(second).1 =~= cursor.run(second).1);
    } else if first.len() < want {
        assert(after == Cursor { pending: cursor.pending + first, ..cursor });
        assert(after.wanted() == want - first.len());
        assert(Seq::<ReceivedView>::empty() + after.run(second).1 =~= after.run(second).1);
        if second.len() == 0 {
            assert(both =~= first);
        } else if both.len() < want {
            assert(cursor.pending + both =~= after.pending + second);
        } else {
            assert(cursor.pending + both.take(want) =~= after.pending + second.take(
                after.wanted(),
            ));
            assert(both.skip(want) =~= second.skip(after.wanted()));
            lemma_completed_ignores_pending(
                cursor,
                after.pending,
                cursor.pending + both.take(want),
            );
        }
    } else {
        let chunk = cursor.pending + first.take(want);
        let step = cursor.completed(chunk);
        assert(both.take(want) =~= first.take(want));
        assert(both.skip(want) =~= first.skip(want) + second);
        lemma_completed_wf(cursor, chunk);
        lemma_run_split(step.0, first.skip(want), second);
        let middle = step.0.run(first.skip(want));
        let last = middle.0.run(second);
        match step.1 {
            Some(event) => {
                assert(seq![event] + (middle.1 + last.1) =~= (seq![event] + middle.1) + last.1);
            },
            None => {},
        }
    }
}

/// A read of no more bytes than the chunk awaited lacks completes at most
/// one frame; a shorter read completes none and is kept as it is.
pub proof fn lemma_run_one_chunk(cursor: Cursor, bytes: Seq<u8>)
    requires
        cursor.wf(),
        bytes.len() <= cursor.wanted(),
    ensures
        cursor.run(bytes).1.len() <= 1,
        bytes.len() < cursor.wanted() ==> cursor.run(bytes) == (
            Cursor { pending: cursor.pending + bytes, ..cursor },
            Seq::<ReceivedView>::empty(),
        ),
        bytes.len() == cursor.wanted() ==> cursor.run(bytes).0 == cursor.completed(
            cursor.pending + bytes,
        ).0,
{
    if bytes.len() == 0 {
        assert(cursor.pending + bytes =~= cursor.pending);
    } else if bytes.len() == cursor.wanted() {
        let step = cursor.completed(cursor.pending + bytes);
        assert(bytes.take(bytes.len() as int) =~= bytes);
        assert(bytes.skip(bytes.len() as int).len() == 0);
        assert(step.0.run(bytes.skip(bytes.len() as int)) == (step.0, Seq::<ReceivedView>::empty()));
        if let Some(event) = step.1 {
            assert((seq![event] + Seq::<ReceivedView>::empty()).len() == 1);
        }
    }
}

/// A manifest payload replaces the manifest held, whatever it was: after it
/// the decoder holds exactly the entries of the payload, so that a path or
/// an id that only the manifest before had resolves no more.
pub proof fn lemma_manifest_replaced(cursor: Cursor, payload: Seq<u8>, entries: Seq<EntryView>)
    requires
        cursor.delivery(payload) == ReceivedView::Manifest(entries),
    ensures
        cursor.awaits_manifest(),
        parse(decode_utf8(payload)) == Some(entries),
        cursor.delivered(payload).manifest == Some(entries),
        forall|path: Seq<char>|
            (forall|i: int| 0 <= i < entries.len() ==> (#[trigger] entries[i]).path != path)
                ==> #[trigger] lookup_path(entries, path) is None,
        forall|id: i32|
            (forall|i: int| 0 <= i < entries.len() ==> (#[trigger] entries[i]).id != id)
                ==> #[trigger] data_type_for_id(entries, id) == Err::<Type, ManifestError>(
                ManifestError::NoSuchEntryId(id),
            ),
{
    assert forall|path: Seq<char>|
        (forall|i: int|
            0 <= i < entries.len() ==> (#[trigger] entries[i]).path != path) implies #[trigger] lookup_path(
        entries,
        path,
    ) is None by {
        lemma_lookup_path(entries, path);
        if let Some(entry) = lookup_path(entries, path) {
            let i = choose|i: int| 0 <= i < entries.len() && entries[i] == entry;
            assert(entries[i].path == path);
        }
    }
    assert forall|id: i32|
        (forall|i: int|
            0 <= i < entries.len() ==> (#[trigger] entries[i]).id != id) implies #[trigger] data_type_for_id(
        entries,
        id,
    ) == Err::<Type, ManifestError>(ManifestError::NoSuchEntryId(id)) by {
        lemma_lookup_id(entries, id);
        if let Some(entry) = lookup_id(entries, id) {
            let i = choose|i: int| 0 <= i < entries.len() && entries[i] == entry;
            assert(entries[i].id == id);
        }
    }
}

/// A frame for an id whose entry has a type tag outside `0..=5` is not
/// decoded: the data length completes with the failure `WrongDataType` of
/// the tag, and the decoder reads no payload for it.
pub proof fn lemma_unknown_tag_fails(cursor: Cursor, chunk: Seq<u8>, entry: EntryView)
    requires
        cursor.next == ChunkType::DataLength,
        cursor.id != -1,
        cursor.manifest matches Some(entries) && lookup_id(entries, cursor.id) == Some(entry),
        !(0 <= entry.data_type <= 5),
    ensures
        data_type_for_id(cursor.manifest->0, cursor.id) == Err::<Type, ManifestError>(
            ManifestError::WrongDataType(entry.data_type),
        ),
        cursor.completed(chunk).1 == Some(
            ReceivedView::Failed(
                DecodeError::Schema(ManifestError::WrongDataType(entry.data_type)),
            ),
        ),
        cursor.completed(chunk).0.next == ChunkType::DataLength,
{
    reveal(Cursor::completed);
}

/// Appends `bytes[from..to]` to `buffer`.
pub fn append_bytes(buffer: &mut Vec<u8>, bytes: &[u8], from: usize, to: usize)
    requires
        from <= to <= bytes@.len(),
    ensures
        final(buffer)@ == old(buffer)@ + bytes@.subrange(from as int, to as int),
{
    let mut i: usize = from;
    while i < to
        invariant
            from <= i <= to <= bytes@.len(),
            buffer@ == old(buffer)@ + bytes@.subrange(from as int, i as int),
        decreases to - i,
    {
        buffer.push(bytes[i]);
        assert(bytes@.subrange(from as int, i + 1) =~= bytes@.subrange(from as int, i as int).push(
            bytes@[i as int],
        ));
        i += 1;
    }
}

/// The data path of one session: the decoder's cursor, the manifest held
/// and the outbound dispatcher.
pub struct ConnectionData {
    manifest: Option<Manifest>,
    next_chunk_type: ChunkType,
    current_id: i32,
    current_data_length: i32,
    current_string_len: i32,
    current_type: Type,
    current_data: Vec<u8>,
    outbound: Outbound,
}

impl View for ConnectionData {
    type V = Cursor;

    closed spec fn view(&self) -> Cursor {
        Cursor {
            manifest: match self.manifest {
                Some(m) => Some(m@),
                None => None,
            },
            next: self.next_chunk_type,
            id: self.current_id,
            data_length: self.current_data_length,
            string_length: self.current_string_len,
            kind: self.current_type,
            pending: self.current_data@,
        }
    }
}

impl Default for ConnectionData {
    fn default() -> (data: Self)
        ensures
            data.wf(),
            data@ == Cursor::start(),
            data.outbound().commands.len() == 0,
            data.outbound().in_flight.len() == 0,
    {
        Self {
            manifest: None,
            next_chunk_type: ChunkType::CommandId,
            current_id: 0,
            current_data_length: 0,
            current_string_len: 0,
            current_type: Type::Boolean,
            current_data: Vec::new(),
            outbound: Outbound::new(),
        }
    }
}

impl ConnectionData {
    /// What the outbound dispatcher holds.
    pub closed spec fn outbound(&self) -> OutboundView {
        self.outbound@
    }

    /// Whether the data path is in order: the chunk awaited lacks at least
    /// one byte, and no outbound piece in flight is empty.
    pub open spec fn wf(&self) -> bool {
        self@.wf() && self.outbound().wf()
    }

    /// The data path of a new session: no manifest, the decoder at the
    /// start of a frame, nothing to write.
    pub fn new() -> (data: Self)
        ensures
            data.wf(),
            data@ == Cursor::start(),
            data.outbound().commands.len() == 0,
            data.outbound().in_flight.len() == 0,
    {
        Self::default()
    }

    /// The number of bytes that the chunk awaited still lacks: the most that
    /// one read may ask of the stream, so that it takes nothing of the
    /// chunk after.
    pub fn bytes_wanted(&self) -> (n: usize)
        requires
            self.wf(),
        ensures
            n == self@.wanted(),
            n >= 1,
    {
        let target: usize = match self.next_chunk_type {
            ChunkType::Data => match self.current_type.width() {
                Some(width) => width,
                None => self.current_string_len as usize,
            },
            _ => 4,
        };
        target - self.current_data.len()
    }

    /// The chunk that the decoder awaits.
    pub fn next_chunk_type(&self) -> (next: ChunkType)
        ensures
            next == self@.next,
    {
        self.next_chunk_type
    }

    /// Takes in the first `length` bytes of `bytes`, as many chunks as they
    /// hold, and returns the frames that they completed, in order.
    pub fn read_chunk(&mut self, bytes: Vec<u8>, length: usize) -> (events: Vec<Received>)
        requires
            old(self).wf(),
            length <= bytes@.len(),
        ensures
            final(self).wf(),
            final(self).outbound() == old(self).outbound(),
            (final(self)@, received_views(events@)) == old(self)@.run(
                bytes@.take(length as int),
            ),
    {
        let mut events: Vec<Received> = Vec::new();
        let mut pos: usize = 0;
        let ghost all = bytes@.take(length as int);
        assert(all.skip(0) =~= all);
        assert(received_views(events@) =~= Seq::<ReceivedView>::empty());
        assert(Seq::<ReceivedView>::empty() + self@.run(all).1 =~= self@.run(all).1);
        while pos < length
            invariant
                pos <= length <= bytes@.len(),
                all == bytes@.take(length as int),
                self.wf(),
                self.outbound() == old(self).outbound(),
                old(self)@.run(all) == (
                    self@.run(all.skip(pos as int)).0,
                    received_views(events@) + self@.run(all.skip(pos as int)).1,
                ),
            decreases length - pos,
        {
            let want = self.bytes_wanted();
            let ghost cursor = self@;
            let ghost rest = all.skip(pos as int);
            let ghost before = received_views(events@);
            if length - pos < want {
                append_bytes(&mut self.current_data, bytes.as_slice(), pos, length);
                assert(bytes@.subrange(pos as int, length as int) =~= rest);
                assert(all.skip(length as int).len() == 0);
                assert(before + Seq::<ReceivedView>::empty() =~= before);
                pos = length;
            } else {
                let mut chunk: Vec<u8> = Vec::new();
                std::mem::swap(&mut chunk, &mut self.current_data);
                append_bytes(&mut chunk, bytes.as_slice(), pos, pos + want);
                assert(bytes@.subrange(pos as int, pos + want) =~= rest.take(want as int));
                assert(rest.skip(want as int) =~= all.skip(pos + want));
                proof {
                    lemma_completed_ignores_pending(cursor, self@.pending, chunk@);
                    lemma_completed_wf(cursor, chunk@);
                }
                let event = self.complete(chunk);
                match event {
                    Some(e) => {
                        events.push(e);
                        let ghost tail = self@.run(all.skip(pos + want)).1;
                        assert(received_views(events@) =~= before.push(e@));
                        assert(before + (seq![e@] + tail) =~= before.push(e@) + tail);
                    },
                    None => {},
                }
                pos += want;
            }
        }
        assert(all.skip(length as int).len() == 0);
        assert(received_views(events@) + Seq::<ReceivedView>::empty() =~= received_views(
            events@,
        ));
        events
    }

    /// Interprets the complete chunk `chunk`.
    fn complete(&mut self, chunk: Vec<u8>) -> (event: Option<Received>)
        requires
            old(self).current_data@.len() == 0,
            chunk@.len() == old(self)@.target(),
            chunk@.len() > 0,
        ensures
            final(self).outbound() == old(self).outbound(),
            final(self)@ == old(self)@.completed(chunk@).0,
            match event {
                Some(e) => old(self)@.completed(chunk@).1 == Some(e@),
                None => old(self)@.completed(chunk@).1 is None,
            },
    {
        reveal(Cursor::completed);
        assert(self.current_data@ =~= Seq::<u8>::empty());
        match self.next_chunk_type {
            ChunkType::CommandId => {
                self.id_received(read_le_i32(chunk.as_slice()));
                None
            },
            ChunkType::DataLength => {
                match self.data_length_received(read_le_i32(chunk.as_slice())) {
                    Some(e) => Some(Received::Failed(e)),
                    None => None,
                }
            },
            ChunkType::StringLength => self.string_length_received(
                read_le_i32(chunk.as_slice()),
            ),
            ChunkType::Data => Some(self.data_chunk_received(chunk)),
        }
    }

    /// A command id has arrived: the data length follows.
    fn id_received(&mut self, id: i32)
        ensures
            final(self).outbound() == old(self).outbound(),
            final(self)@ == (Cursor { next: ChunkType::DataLength, id, ..old(self)@ }),
    {
        self.current_id = id;
        self.next_chunk_type = ChunkType::DataLength;
    }

    /// A data length has arrived. What follows depends on the wire type of
    /// the frame's id: the string length for text, the payload for any
    /// other type. Where the id has no wire type the failure is returned
    /// and the decoder goes on awaiting a data length.
    fn data_length_received(&mut self, data_length: i32) -> (failure: Option<DecodeError>)
        ensures
            final(self).outbound() == old(self).outbound(),
            match resolve(old(self)@.manifest, old(self)@.id) {
                Ok(kind) => failure is None && final(self)@ == (Cursor {
                    next: if kind == Type::String {
                        ChunkType::StringLength
                    } else {
                        ChunkType::Data
                    },
                    kind,
                    data_length,
                    ..old(self)@
                }),
                Err(e) => failure == Some(e) && final(self)@ == (Cursor {
                    data_length,
                    ..old(self)@
                }),
            },
    {
        self.current_data_length = data_length;
        match self.resolve_type() {
            Ok(kind) => {
                self.current_type = kind;
                self.next_chunk_type = if kind == Type::String {
                    ChunkType::StringLength
                } else {
                    ChunkType::Data
                };
                None
            },
            Err(e) => Some(e),
        }
    }

    /// The wire type of the payload of the frame being read.
    fn resolve_type(&self) -> (kind: Result<Type, DecodeError>)
        ensures
            kind == resolve(self@.manifest, self@.id),
    {
        if self.current_id == -1 {
            Ok(Type::String)
        } else {
            match &self.manifest {
                None => Err(DecodeError::Schema(ManifestError::NoManifest())),
                Some(manifest) => match manifest.get_data_type_for_id(&self.current_id) {
                    Ok(kind) => Ok(kind),
                    Err(e) => Err(DecodeError::Schema(e)),
                },
            }
        }
    }

    /// A string length has arrived: that many bytes of text follow. A
    /// length that is not positive completes the frame at once, with an
    /// empty payload.
    fn string_length_received(&mut self, string_length: i32) -> (event: Option<Received>)
        requires
            old(self).current_data@.len() == 0,
        ensures
            final(self).outbound() == old(self).outbound(),
            ({
                let read = Cursor { string_length, kind: Type::String, ..old(self)@ };
                if string_length <= 0 {
                    final(self)@ == read.delivered(Seq::empty()) && (event matches Some(e) && e@
                        == read.delivery(Seq::empty()))
                } else {
                    final(self)@ == (Cursor { next: ChunkType::Data, ..read }) && event is None
                }
            }),
    {
        self.current_string_len = string_length;
        self.current_type = Type::String;
        if string_length <= 0 {
            Some(self.data_chunk_received(Vec::new()))
        } else {
            self.next_chunk_type = ChunkType::Data;
            None
        }
    }

    /// A payload is complete: it is decoded, and the decoder goes back to
    /// awaiting a frame.
    fn data_chunk_received(&mut self, bytes: Vec<u8>) -> (event: Received)
        requires
            old(self).current_data@.len() == 0,
        ensures
            final(self).outbound() == old(self).outbound(),
            final(self)@ == old(self)@.delivered(bytes@),
            event@ == old(self)@.delivery(bytes@),
    {
        assert(self.current_data@ =~= Seq::<u8>::empty());
        let event = if self.current_type == Type::String && (self.current_id == -1
            || self.manifest.is_none()) {
            self.manifest_chunk_received(bytes)
        } else {
            match TypedValue::from_bytes(self.current_type, bytes.as_slice()) {
                Ok(value) => Received::Data(ReceivedDataArgs::new(self.current_id, value)),
                Err(e) => Received::Failed(DecodeError::Payload(e)),
            }
        };
        self.next_chunk_type = ChunkType::CommandId;
        event
    }

    /// A manifest text is complete: it is parsed, and the manifest that it
    /// records replaces the one held. A text that is not UTF-8 or is
    /// malformed is reported and changes nothing.
    fn manifest_chunk_received(&mut self, bytes: Vec<u8>) -> (event: Received)
        ensures
            final(self).outbound() == old(self).outbound(),
            !valid_utf8(bytes@) ==> event@ == ReceivedView::Failed(
                DecodeError::Payload(PayloadError::InvalidUtf8),
            ) && final(self)@ == old(self)@,
            valid_utf8(bytes@) ==> match parse(decode_utf8(bytes@)) {
                Some(entries) => event@ == ReceivedView::Manifest(entries) && final(self)@ == (
                Cursor { manifest: Some(entries), ..old(self)@ }),
                None => event@ == ReceivedView::Failed(
                    DecodeError::Payload(PayloadError::MalformedManifest),
                ) && final(self)@ == old(self)@,
            },
    {
        match string_from_utf8(bytes) {
            None => Received::Failed(DecodeError::Payload(PayloadError::InvalidUtf8)),
            Some(text) => match Manifest::from_str(text.as_str()) {
                Ok(manifest) => {
                    self.manifest = Some(manifest.clone());
                    Received::Manifest(ReceivedManifestArgs::new(manifest))
                },
                Err(e) => Received::Failed(DecodeError::Payload(e)),
            },
        }
    }

    /// The manifest held.
    pub fn get_manifest(&self) -> (manifest: Result<&Manifest, ManifestError>)
        ensures
            match manifest {
                Ok(m) => self@.manifest == Some(m@),
                Err(e) => self@.manifest is None && e == ManifestError::NoManifest(),
            },
    {
        match &self.manifest {
            Some(manifest) => Ok(manifest),
            None => Err(ManifestError::NoManifest()),
        }
    }

    /// Enqueues a request for the value of the state `state_id`.
    pub fn send_get_state(&mut self, state_id: i32)
        ensures
            old(self).wf() ==> final(self).wf(),
            final(self)@ == old(self)@,
            final(self).outbound().commands == old(self).outbound().commands.push(
                crate::outbound::CommandView::GetState(state_id),
            ),
            final(self).outbound().in_flight == old(self).outbound().in_flight,
    {
        self.outbound.enqueue(Command::GetState(state_id));
    }

    /// Enqueues a request to give the state `state_id` the value `value`.
    pub fn send_set_state(&mut self, state_id: i32, value: TypedValue)
        ensures
            old(self).wf() ==> final(self).wf(),
            final(self)@ == old(self)@,
            final(self).outbound().commands == old(self).outbound().commands.push(
                crate::outbound::CommandView::SetState(state_id, value@),
            ),
            final(self).outbound().in_flight == old(self).outbound().in_flight,
    {
        self.outbound.enqueue(Command::SetState(state_id, value));
    }

    /// Enqueues a request to run the command `command_id`. On the wire a
    /// run is a get of the command's id.
    pub fn send_command(&mut self, command_id: i32)
        ensures
            old(self).wf() ==> final(self).wf(),
            final(self)@ == old(self)@,
            final(self).outbound().commands == old(self).outbound().commands.push(
                crate::outbound::CommandView::GetState(command_id),
            ),
            final(self).outbound().in_flight == old(self).outbound().in_flight,
    {
        self.outbound.enqueue(Command::GetState(command_id));
    }

    /// Starts a writable poll and returns the piece to offer to the sink;
    /// see [`Outbound::send`].
    pub fn send(&mut self) -> (piece: Option<Vec<u8>>)
        requires
            old(self).wf(),
        ensures
            final(self).wf(),
            final(self)@ == old(self)@,
            final(self).outbound() == old(self).outbound().begun(),
            match piece {
                Some(bytes) => final(self).outbound().offer() == Some(bytes@) && bytes@.len() > 0
                    && bytes@.is_prefix_of(old(self).outbound().backlog()),
                None => final(self).outbound().offer() is None && old(self).outbound().backlog().len()
                    == 0,
            },
    {
        self.outbound.send()
    }

    /// Records that the sink took `accepted` bytes of the piece offered and
    /// returns the piece to offer next in the same poll; see
    /// [`Outbound::written`].
    pub fn written(&mut self, accepted: usize) -> (piece: Option<Vec<u8>>)
        requires
            old(self).wf(),
        ensures
            final(self).wf(),
            final(self)@ == old(self)@,
            final(self).outbound() == old(self).outbound().taken(accepted as nat),
            match piece {
                Some(bytes) => old(self).outbound().offer_after(accepted as nat) == Some(bytes@),
                None => old(self).outbound().offer_after(accepted as nat) is None,
            },
    {
        self.outbound.written(accepted)
    }
}

} // verus!
