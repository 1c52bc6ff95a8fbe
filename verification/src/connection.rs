//! The session: what a connection to one simulator instance knows and the
//! rules by which requests are turned into commands.
//!
//! The sockets and the clock belong to the embedding program. It tells the
//! session what they yielded (a discovery datagram, the bytes read, the bytes
//! that the sink took, the time since the last poll) and the session answers
//! with what follows from it.

use crate::data::{ConnectionData, Cursor};
use crate::error::{ManifestError, PayloadError};
use crate::event_args::{received_views, Received};
use crate::manifest::{lookup_path, EntryView};
use crate::outbound::{CommandView, OutboundView};
use crate::typed_value::{string_from_utf8, TypedValue};
use vstd::prelude::*;
use vstd::slice::{slice_subrange, slice_to_vec};
use vstd::utf8::{decode_utf8, valid_utf8};

verus! {

/// How far the session has come.
#[derive(Debug, Clone, Copy, PartialEq, Eq, Structural)]
pub enum ConnectionState {
    Connected,
    Connecting,
    Disconnected,
}

/// What a simulator instance says of itself in its discovery datagram.
#[derive(Debug, Clone)]
pub struct InstanceInformation {
    pub state: String,
    pub port: u32,
    pub device_id: String,
    pub aircraft: String,
    pub version: String,
    pub device_name: String,
    pub addresses: Vec<String>,
    pub livery: String,
}

/// The index of the first byte of `buf` that is not NUL, or its length.
pub open spec fn nul_prefix(buf: Seq<u8>) -> int
    decreases buf.len(),
{
    if buf.len() == 0 || buf[0] != 0 {
        0
    } else {
        1 + nul_prefix(buf.drop_first())
    }
}

/// The index after the last byte of `buf` that is not NUL, or 0.
pub open spec fn nul_suffix(buf: Seq<u8>) -> int
    decreases buf.len(),
{
    if buf.len() == 0 || buf.last() != 0 {
        buf.len() as int
    } else {
        nul_suffix(buf.drop_last())
    }
}

/// `buf` without the NUL bytes at its beginning and at its end.
pub open spec fn trimmed(buf: Seq<u8>) -> Seq<u8> {
    if nul_prefix(buf) >= nul_suffix(buf) {
        Seq::empty()
    } else {
        buf.subrange(nul_prefix(buf), nul_suffix(buf))
    }
}

/// The id that a request by path is sent under: that of the entry that
/// answers for the path in the manifest held.
pub open spec fn id_of_path(manifest: Option<Seq<EntryView>>, path: Seq<char>) -> Option<i32> {
    match manifest {
        None => None,
        Some(entries) => match lookup_path(entries, path) {
            Some(entry) => Some(entry.id),
            None => None,
        },
    }
}

/// Whether `error` is the failure of a request by `path`: `NoManifest` where
/// none is held, `NoSuchEntryPath` with the path where no entry has it.
pub open spec fn is_path_error(
    manifest: Option<Seq<EntryView>>,
    path: Seq<char>,
    error: ManifestError,
) -> bool {
    match manifest {
        None => error == ManifestError::NoManifest(),
        Some(entries) => lookup_path(entries, path) is None && (
        error matches ManifestError::NoSuchEntryPath(p) && p@ == path),
    }
}

/// The commands that wait after a get was enqueued for each of `paths` in
/// turn, up to the first that does not resolve, and that path if there is
/// one.
pub open spec fn polled(
    manifest: Option<Seq<EntryView>>,
    paths: Seq<Seq<char>>,
    commands: Seq<CommandView>,
) -> (Seq<CommandView>, Option<Seq<char>>)
    decreases paths.len(),
{
    if paths.len() == 0 {
        (commands, None)
    } else {
        match id_of_path(manifest, paths[0]) {
            Some(id) => polled(
                manifest,
                paths.drop_first(),
                commands.push(CommandView::GetState(id)),
            ),
            None => (commands, Some(paths[0])),
        }
    }
}

/// The text of a discovery datagram: the bytes received without the NUL
/// bytes that pad them, read as UTF-8.
pub fn discovery_text(buf: &[u8]) -> (text: Result<String, PayloadError>)
    ensures
        match text {
            Ok(s) => valid_utf8(trimmed(buf@)) && s@ == decode_utf8(trimmed(buf@)),
            Err(e) => !valid_utf8(trimmed(buf@)) && e == PayloadError::InvalidUtf8,
        },
{
    let mut from: usize = 0;
    assert(buf@.skip(0) =~= buf@);
    while from < buf.len() && buf[from] == 0
        invariant
            from <= buf@.len(),
            nul_prefix(buf@) == from + nul_prefix(buf@.skip(from as int)),
        decreases buf@.len() - from,
    {
        assert(buf@.skip(from as int).drop_first() =~= buf@.skip(from + 1));
        from += 1;
    }
    let mut to: usize = buf.len();
    assert(buf@.take(buf@.len() as int) =~= buf@);
    while to > 0 && buf[to - 1] == 0
        invariant
            to <= buf@.len(),
            nul_suffix(buf@) == nul_suffix(buf@.take(to as int)),
        decreases to,
    {
        assert(buf@.take(to as int).drop_last() =~= buf@.take(to - 1));
        to -= 1;
    }
    let kept = if from >= to {
        Vec::new()
    } else {
        slice_to_vec(slice_subrange(buf, from, to))
    };
    assert(kept@ =~= trimmed(buf@));
    match string_from_utf8(kept) {
        Some(s) => Ok(s),
        None => Err(PayloadError::InvalidUtf8),
    }
}

/// A session with one simulator instance.
pub struct Connection {
    state: ConnectionState,
    connected_instance: Option<InstanceInformation>,
    data: ConnectionData,
    enable_polling: bool,
    states_to_poll: Vec<String>,
    poll_interval: u32,
}

/// The interval of the periodic polling where none is set, in milliseconds.
pub const DEFAULT_POLLING_INTERVAL: u32 = 100;

/// Whether periodic polling is on where nothing is set.
pub const DEFAULT_POLLING_STATE: bool = false;

impl Default for Connection {
    fn default() -> (connection: Self)
        ensures
            connection.wf(),
            connection.state() == ConnectionState::Disconnected,
            connection.instance() is None,
            connection.data()@ == Cursor::start(),
            connection.data().outbound().commands.len() == 0,
            connection.data().outbound().in_flight.len() == 0,
            !connection.polling_enabled(),
            connection.polling_paths().len() == 0,
            connection.polling_interval() == DEFAULT_POLLING_INTERVAL,
    {
        Self {
            state: ConnectionState::Disconnected,
            connected_instance: None,
            data: ConnectionData::new(),
            enable_polling: DEFAULT_POLLING_STATE,
            states_to_poll: Vec::new(),
            poll_interval: DEFAULT_POLLING_INTERVAL,
        }
    }
}

impl Connection {
    /// The data path of the session.
    pub closed spec fn data(&self) -> ConnectionData {
        self.data
    }

    /// How far the session has come.
    pub closed spec fn state(&self) -> ConnectionState {
        self.state
    }

    /// Whether periodic polling is switched on.
    pub closed spec fn polling_enabled(&self) -> bool {
        self.enable_polling
    }

    /// The paths that periodic polling asks for.
    pub closed spec fn polling_paths(&self) -> Seq<Seq<char>> {
        self.states_to_poll@.map_values(|p: String| p@)
    }

    /// The interval of the periodic polling, in milliseconds.
    pub closed spec fn polling_interval(&self) -> u32 {
        self.poll_interval
    }

    /// The instance that discovery found last.
    pub closed spec fn instance(&self) -> Option<InstanceInformation> {
        self.connected_instance
    }

    /// Whether the session is in order: its data path is.
    pub open spec fn wf(&self) -> bool {
        self.data().wf()
    }

    /// Whether `next` is `self` with nothing changed but the commands that
    /// wait, which are now `commands`.
    pub open spec fn only_enqueued(&self, next: &Connection, commands: Seq<CommandView>) -> bool {
        &&& next.data()@ == self.data()@
        &&& next.data().outbound() == OutboundView { commands, ..self.data().outbound() }
        &&& next.state() == self.state()
        &&& next.instance() == self.instance()
        &&& next.polling_enabled() == self.polling_enabled()
        &&& next.polling_paths() == self.polling_paths()
        &&& next.polling_interval() == self.polling_interval()
    }

    /// A new session: disconnected, no instance found, no manifest held,
    /// nothing to write, periodic polling switched off.
    pub fn new() -> (connection: Self)
        ensures
            connection.wf(),
            connection.state() == ConnectionState::Disconnected,
            connection.instance() is None,
            connection.data()@ == Cursor::start(),
            connection.data().outbound().commands.len() == 0,
            connection.data().outbound().in_flight.len() == 0,
            !connection.polling_enabled(),
            connection.polling_paths().len() == 0,
            connection.polling_interval() == DEFAULT_POLLING_INTERVAL,
    {
        Self::default()
    }

    /// Records the instance that discovery found.
    pub fn set_instance(&mut self, instance: InstanceInformation)
        ensures
            final(self).instance() == Some(instance),
            final(self).data() == old(self).data(),
            final(self).state() == old(self).state(),
            final(self).polling_enabled() == old(self).polling_enabled(),
            final(self).polling_paths() == old(self).polling_paths(),
            final(self).polling_interval() == old(self).polling_interval(),
    {
        self.connected_instance = Some(instance);
    }

    /// The instance that discovery found last.
    pub fn connected_instance(&self) -> (instance: Option<&InstanceInformation>)
        ensures
            match instance {
                Some(i) => self.instance() == Some(*i),
                None => self.instance() is None,
            },
    {
        self.connected_instance.as_ref()
    }

    /// Records that the TCP session is established.
    pub fn established(&mut self)
        ensures
            final(self).state() == ConnectionState::Connected,
            final(self).data() == old(self).data(),
            final(self).instance() == old(self).instance(),
            final(self).polling_enabled() == old(self).polling_enabled(),
            final(self).polling_paths() == old(self).polling_paths(),
            final(self).polling_interval() == old(self).polling_interval(),
    {
        self.state = ConnectionState::Connected;
    }

    /// How far the session has come.
    pub fn get_connection_state(&self) -> (state: &ConnectionState)
        ensures
            *state == self.state(),
    {
        &self.state
    }

    /// Configures periodic polling: whether it is on, the paths to ask for
    /// and the interval in milliseconds.
    pub fn set_polling(&mut self, enabled: bool, paths: Vec<String>, interval: u32)
        ensures
            final(self).polling_enabled() == enabled,
            final(self).polling_paths() == paths@.map_values(|p: String| p@),
            final(self).polling_interval() == interval,
            final(self).data() == old(self).data(),
            final(self).state() == old(self).state(),
            final(self).instance() == old(self).instance(),
    {
        self.enable_polling = enabled;
        self.states_to_poll = paths;
        self.poll_interval = interval;
    }

    /// Whether a periodic poll is due `elapsed_ms` milliseconds after the
    /// last: polling is on and the interval has passed.
    pub fn poll_due(&self, elapsed_ms: u128) -> (due: bool)
        ensures
            due == (self.polling_enabled() && elapsed_ms >= self.polling_interval()),
    {
        self.enable_polling && elapsed_ms >= self.poll_interval as u128
    }

    /// The session's own part of one poll cycle, `elapsed_ms` milliseconds
    /// after the last periodic poll: the periodic polling. Reading and
    /// writing the stream is the caller's part; see
    /// [`Connection::read_chunk`] and [`Connection::send`].
    ///
    /// Where no poll is due nothing happens and `Ok(false)` is returned.
    /// Else a get is enqueued for each configured path in turn. `Ok(true)`
    /// says that all were, and that the timer starts anew. The first path
    /// that does not resolve ends the tick with its error; the gets before
    /// it stay enqueued and the timer is not reset.
    pub fn update(&mut self, elapsed_ms: u128) -> (polled_all: Result<bool, ManifestError>)
        ensures
            old(self).wf() ==> final(self).wf(),
            !(old(self).polling_enabled() && elapsed_ms >= old(self).polling_interval()) ==> (
            polled_all matches Ok(reset) && !reset) && old(self).only_enqueued(
                final(self),
                old(self).data().outbound().commands,
            ),
            old(self).polling_enabled() && elapsed_ms >= old(self).polling_interval() ==> {
                let after = polled(
                    old(self).data()@.manifest,
                    old(self).polling_paths(),
                    old(self).data().outbound().commands,
                );
                &&& old(self).only_enqueued(final(self), after.0)
                &&& match polled_all {
                    Ok(reset) => reset && after.1 is None,
                    Err(e) => after.1 matches Some(path) && is_path_error(
                        old(self).data()@.manifest,
                        path,
                        e,
                    ),
                }
            },
    {
        if !self.poll_due(elapsed_ms) {
            assert(self.data().outbound() == OutboundView {
                commands: self.data().outbound().commands,
                ..self.data().outbound()
            });
            return Ok(false);
        }
        let ghost manifest = self.data()@.manifest;
        let ghost paths = self.polling_paths();
        let ghost before = self.data().outbound();
        let mut i: usize = 0;
        assert(paths.skip(0) =~= paths);
        assert(before == OutboundView { commands: before.commands, ..before });
        while i < self.states_to_poll.len()
            invariant
                i <= self.states_to_poll@.len(),
                old(self).polling_enabled() && elapsed_ms >= old(self).polling_interval(),
                paths == self.polling_paths(),
                manifest == self.data()@.manifest,
                old(self).wf() ==> self.wf(),
                old(self).only_enqueued(self, self.data().outbound().commands),
                before == old(self).data().outbound(),
                polled(manifest, paths, before.commands) == polled(
                    manifest,
                    paths.skip(i as int),
                    self.data().outbound().commands,
                ),
            decreases self.states_to_poll@.len() - i,
        {
            assert(paths.skip(i as int)[0] == self.states_to_poll@[i as int]@);
            assert(paths.skip(i as int).drop_first() =~= paths.skip(i + 1));
            let id = match self.data.get_manifest() {
                Err(e) => {
                    return Err(e);
                },
                Ok(m) => match m.get_entry_by_path(self.states_to_poll[i].as_str()) {
                    Err(e) => {
                        return Err(e);
                    },
                    Ok(entry) => entry.id,
                },
            };
            self.data.send_get_state(id);
            i += 1;
        }
        Ok(true)
    }

    /// Enqueues a request for the manifest: a get of the id `-1`.
    pub fn get_manifest(&mut self)
        ensures
            old(self).wf() ==> final(self).wf(),
            old(self).only_enqueued(
                final(self),
                old(self).data().outbound().commands.push(CommandView::GetState(-1i32)),
            ),
    {
        self.data.send_get_state(-1);
    }

    /// The id that a request by `path` is sent under.
    fn resolve(&self, path: &str) -> (id: Result<i32, ManifestError>)
        ensures
            match id {
                Ok(i) => id_of_path(self.data()@.manifest, path@) == Some(i),
                Err(e) => id_of_path(self.data()@.manifest, path@) is None && is_path_error(
                    self.data()@.manifest,
                    path@,
                    e,
                ),
            },
    {
        match self.data.get_manifest() {
            Err(e) => Err(e),
            Ok(m) => match m.get_entry_by_path(path) {
                Err(e) => Err(e),
                Ok(entry) => Ok(entry.id),
            },
        }
    }

    /// Enqueues a request for the value of the state at `state_path`.
    ///
    /// Fails with `NoManifest` where no manifest is held and with
    /// `NoSuchEntryPath` where no entry has the path; nothing is enqueued
    /// then.
    pub fn get(&mut self, state_path: String) -> (sent: Result<(), ManifestError>)
        ensures
            old(self).wf() ==> final(self).wf(),
            match sent {
                Ok(_) => id_of_path(old(self).data()@.manifest, state_path@) matches Some(id)
                    && old(self).only_enqueued(
                    final(self),
                    old(self).data().outbound().commands.push(CommandView::GetState(id)),
                ),
                Err(e) => *final(self) == *old(self) && is_path_error(
                    old(self).data()@.manifest,
                    state_path@,
                    e,
                ),
            },
    {
        match self.resolve(state_path.as_str()) {
            Err(e) => Err(e),
            Ok(id) => {
                self.data.send_get_state(id);
                Ok(())
            },
        }
    }

    /// Enqueues a request to give the state at `state_path` the value
    /// `value`. Fails as [`Connection::get`] does.
    pub fn set(&mut self, state_path: String, value: TypedValue) -> (sent: Result<
        (),
        ManifestError,
    >)
        ensures
            old(self).wf() ==> final(self).wf(),
            match sent {
                Ok(_) => id_of_path(old(self).data()@.manifest, state_path@) matches Some(id)
                    && old(self).only_enqueued(
                    final(self),
                    old(self).data().outbound().commands.push(CommandView::SetState(id, value@)),
                ),
                Err(e) => *final(self) == *old(self) && is_path_error(
                    old(self).data()@.manifest,
                    state_path@,
                    e,
                ),
            },
    {
        match self.resolve(state_path.as_str()) {
            Err(e) => Err(e),
            Ok(id) => {
                self.data.send_set_state(id, value);
                Ok(())
            },
        }
    }

    /// Enqueues a request to run the command at `command_path`. Fails as
    /// [`Connection::get`] does.
    pub fn run(&mut self, command_path: String) -> (sent: Result<(), ManifestError>)
        ensures
            old(self).wf() ==> final(self).wf(),
            match sent {
                Ok(_) => id_of_path(old(self).data()@.manifest, command_path@) matches Some(id)
                    && old(self).only_enqueued(
                    final(self),
                    old(self).data().outbound().commands.push(CommandView::GetState(id)),
                ),
                Err(e) => *final(self) == *old(self) && is_path_error(
                    old(self).data()@.manifest,
                    command_path@,
                    e,
                ),
            },
    {
        match self.resolve(command_path.as_str()) {
            Err(e) => Err(e),
            Ok(id) => {
                self.data.send_command(id);
                Ok(())
            },
        }
    }

    /// Enqueues a request for the value of the state `state_id`.
    pub fn get_id(&mut self, state_id: i32)
        ensures
            old(self).wf() ==> final(self).wf(),
            old(self).only_enqueued(
                final(self),
                old(self).data().outbound().commands.push(CommandView::GetState(state_id)),
            ),
    {
        self.data.send_get_state(state_id);
    }

    /// Enqueues a request to give the state `state_id` the value `value`.
    pub fn set_id(&mut self, state_id: i32, value: TypedValue)
        ensures
            old(self).wf() ==> final(self).wf(),
            old(self).only_enqueued(
                final(self),
                old(self).data().outbound().commands.push(
                    CommandView::SetState(state_id, value@),
                ),
            ),
    {
        self.data.send_set_state(state_id, value);
    }

    /// Enqueues a request to run the command `command_id`.
    pub fn run_id(&mut self, command_id: i32)
        ensures
            old(self).wf() ==> final(self).wf(),
            old(self).only_enqueued(
                final(self),
                old(self).data().outbound().commands.push(CommandView::GetState(command_id)),
            ),
    {
        self.data.send_command(command_id);
    }

    /// The most bytes that one read may ask of the stream; see
    /// [`ConnectionData::bytes_wanted`].
    pub fn bytes_wanted(&self) -> (n: usize)
        requires
            self.wf(),
        ensures
            n == self.data()@.wanted(),
            n >= 1,
    {
        self.data.bytes_wanted()
    }

    /// Takes in the first `length` bytes of `bytes` and returns the frames
    /// that they completed; see [`ConnectionData::read_chunk`].
    pub fn read_chunk(&mut self, bytes: Vec<u8>, length: usize) -> (events: Vec<Received>)
        requires
            old(self).wf(),
            length <= bytes@.len(),
        ensures
            final(self).wf(),
            final(self).data().outbound() == old(self).data().outbound(),
            (final(self).data()@, received_views(events@)) == old(self).data()@.run(
                bytes@.take(length as int),
            ),
            final(self).state() == old(self).state(),
            final(self).instance() == old(self).instance(),
            final(self).polling_enabled() == old(self).polling_enabled(),
            final(self).polling_paths() == old(self).polling_paths(),
            final(self).polling_interval() == old(self).polling_interval(),
    {
        self.data.read_chunk(bytes, length)
    }

    /// Starts a writable poll and returns the piece to offer to the sink;
    /// see [`ConnectionData::send`].
    pub fn send(&mut self) -> (piece: Option<Vec<u8>>)
        requires
            old(self).wf(),
        ensures
            final(self).wf(),
            final(self).data()@ == old(self).data()@,
            final(self).data().outbound() == old(self).data().outbound().begun(),
            match piece {
                Some(bytes) => final(self).data().outbound().offer() == Some(bytes@)
                    && bytes@.len() > 0 && bytes@.is_prefix_of(
                    old(self).data().outbound().backlog(),
                ),
                None => final(self).data().outbound().offer() is None && old(
                    self,
                ).data().outbound().backlog().len() == 0,
            },
            final(self).state() == old(self).state(),
            final(self).instance() == old(self).instance(),
            final(self).polling_enabled() == old(self).polling_enabled(),
            final(self).polling_paths() == old(self).polling_paths(),
            final(self).polling_interval() == old(self).polling_interval(),
    {
        self.data.send()
    }

    /// Records that the sink took `accepted` bytes of the piece offered and
    /// returns the piece to offer next in the same poll; see
    /// [`ConnectionData::written`].
    pub fn written(&mut self, accepted: usize) -> (piece: Option<Vec<u8>>)
        requires
            old(self).wf(),
        ensures
            final(self).wf(),
            final(self).data()@ == old(self).data()@,
            final(self).data().outbound() == old(self).data().outbound().taken(accepted as nat),
            match piece {
                Some(bytes) => old(self).data().outbound().offer_after(accepted as nat) == Some(
                    bytes@,
                ),
                None => old(self).data().outbound().offer_after(accepted as nat) is None,
            },
            final(self).state() == old(self).state(),
            final(self).instance() == old(self).instance(),
            final(self).polling_enabled() == old(self).polling_enabled(),
            final(self).polling_paths() == old(self).polling_paths(),
            final(self).polling_interval() == old(self).polling_interval(),
    {
        self.data.written(accepted)
    }
}

} // verus!
