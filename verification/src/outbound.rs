//! The outbound dispatcher: commands waiting to be written to the server.
//!
//! Callers enqueue commands; the poll loop takes them out one at a time and
//! writes each as two or three pieces: the id, the set-flag and, for a set,
//! the value. The sink may take a piece whole, in part or not at all. What
//! it has not taken stays in flight and is offered again, so the bytes that
//! reach the server are always the frames of the commands in the order in
//! which they were enqueued.

use crate::typed_value::{i32_le_bytes, le_bytes4, pattern32, u32_le_bytes, TypedValue, Value};
use queues::{IsQueue, Queue};
use vstd::prelude::*;
use vstd::slice::{slice_subrange, slice_to_vec};

verus! {

/// The FIFO queue of the `queues` crate.
#[verifier::external_type_specification]
#[verifier::external_body]
#[verifier::reject_recursive_types(T)]
pub struct ExQueue<T: Clone>(Queue<T>);

/// A request to the server. Running a command has no frame of its own: it
/// is written as a `GetState` of the command's id.
#[derive(Debug)]
pub enum Command {
    /// Ask for the value of a state, or run a command.
    GetState(i32),
    /// Give a state a value.
    SetState(i32, TypedValue),
}

/// What a [`Command`] is, over the view of its value.
pub enum CommandView {
    GetState(i32),
    SetState(i32, Value),
}

impl View for Command {
    type V = CommandView;

    open spec fn view(&self) -> CommandView {
        match self {
            Command::GetState(id) => CommandView::GetState(*id),
            Command::SetState(id, value) => CommandView::SetState(*id, value@),
        }
    }
}

impl Clone for Command {
    fn clone(&self) -> (copy: Self)
        ensures
            copy == *self,
    {
        match self {
            Command::GetState(id) => Command::GetState(*id),
            Command::SetState(id, value) => Command::SetState(*id, value.clone()),
        }
    }
}

/// The pieces `pieces` put one after the other.
pub open spec fn joined(pieces: Seq<Seq<u8>>) -> Seq<u8>
    decreases pieces.len(),
{
    if pieces.len() == 0 {
        Seq::empty()
    } else {
        pieces[0] + joined(pieces.drop_first())
    }
}

impl CommandView {
    /// The pieces in which the command is written: the id, then the flag
    /// (0 for a get, 1 for a set), each as four little-endian bytes, then
    /// the bytes of a set's value unless there are none. A text value goes
    /// out as its bare UTF-8 bytes, with no length before it, unlike text
    /// on the way in.
    pub open spec fn pieces(self) -> Seq<Seq<u8>> {
        match self {
            CommandView::GetState(id) => seq![le_bytes4(pattern32(id as int)), le_bytes4(0)],
            CommandView::SetState(id, value) => if value.encoding().len() == 0 {
                seq![le_bytes4(pattern32(id as int)), le_bytes4(1)]
            } else {
                seq![le_bytes4(pattern32(id as int)), le_bytes4(1), value.encoding()]
            },
        }
    }

    /// The bytes of the command on the wire.
    pub open spec fn frame(self) -> Seq<u8> {
        joined(self.pieces())
    }
}

/// The frames of `commands`, in order.
pub open spec fn frames(commands: Seq<CommandView>) -> Seq<Seq<u8>> {
    commands.map_values(|c: CommandView| c.frame())
}

/// The bytes of `commands` on the wire: their frames, one after the other.
pub open spec fn wire(commands: Seq<CommandView>) -> Seq<u8> {
    joined(frames(commands))
}

/// The views of queued commands, in order.
pub open spec fn command_views(commands: Seq<Command>) -> Seq<CommandView> {
    commands.map_values(|c: Command| c@)
}

/// What the dispatcher holds.
pub struct OutboundView {
    /// The commands that wait, oldest first.
    pub commands: Seq<CommandView>,
    /// The pieces of the command being written that the sink has not taken
    /// yet, the next to write first.
    pub in_flight: Seq<Seq<u8>>,
}

impl OutboundView {
    /// Every byte that is still to be written, in the order of writing.
    pub open spec fn backlog(self) -> Seq<u8> {
        joined(self.in_flight) + wire(self.commands)
    }

    /// The state after the start of a writable poll: where nothing is in
    /// flight, the oldest command leaves the queue and its pieces go in
    /// flight.
    pub open spec fn begun(self) -> OutboundView {
        if self.in_flight.len() > 0 || self.commands.len() == 0 {
            self
        } else {
            OutboundView {
                commands: self.commands.drop_first(),
                in_flight: self.commands[0].pieces(),
            }
        }
    }

    /// The piece to offer to the sink, if any is in flight.
    pub open spec fn offer(self) -> Option<Seq<u8>> {
        if self.in_flight.len() > 0 {
            Some(self.in_flight[0])
        } else {
            None
        }
    }

    /// The state after the sink took `accepted` bytes of the piece offered.
    /// A piece taken whole leaves; of one taken in part the rest stays.
    pub open spec fn taken(self, accepted: nat) -> OutboundView {
        if self.in_flight.len() == 0 {
            self
        } else if accepted >= self.in_flight[0].len() {
            OutboundView { in_flight: self.in_flight.drop_first(), ..self }
        } else {
            OutboundView {
                in_flight: self.in_flight.update(0, self.in_flight[0].skip(accepted as int)),
                ..self
            }
        }
    }

    /// The piece to offer next in the same poll, after the sink took
    /// `accepted` bytes: the next piece of the same command where the sink
    /// took the piece whole, and none otherwise.
    pub open spec fn offer_after(self, accepted: nat) -> Option<Seq<u8>> {
        if self.in_flight.len() > 0 && accepted >= self.in_flight[0].len() {
            self.taken(accepted).offer()
        } else {
            None
        }
    }

    /// No piece in flight is empty.
    pub open spec fn wf(self) -> bool {
        forall|i: int| 0 <= i < self.in_flight.len() ==> (#[trigger] self.in_flight[i]).len() > 0
    }
}

/// Joining with one more piece at the end puts that piece at the end.
pub proof fn lemma_joined_push(pieces: Seq<Seq<u8>>, last: Seq<u8>)
    ensures
        joined(pieces.push(last)) == joined(pieces) + last,
    decreases pieces.len(),
{
    if pieces.len() == 0 {
        assert(pieces.push(last).drop_first() =~= pieces);
        assert(joined(pieces.push(last)) =~= joined(pieces) + last);
    } else {
        assert(pieces.push(last).drop_first() =~= pieces.drop_first().push(last));
        lemma_joined_push(pieces.drop_first(), last);
        assert(joined(pieces.push(last)) =~= joined(pieces) + last);
    }
}

/// Enqueueing a command puts its frame at the end of the wire bytes.
pub proof fn lemma_wire_push(commands: Seq<CommandView>, command: CommandView)
    ensures
        wire(commands.push(command)) == wire(commands) + command.frame(),
{
    assert(frames(commands.push(command)) =~= frames(commands).push(command.frame()));
    lemma_joined_push(frames(commands), command.frame());
}

/// With one more command waiting, its frame comes last of all that is still
/// to be written.
pub proof fn lemma_enqueue_lengthens_backlog(state: OutboundView, command: CommandView)
    ensures
        (OutboundView { commands: state.commands.push(command), ..state }).backlog()
            == state.backlog() + command.frame(),
{
    let flying = joined(state.in_flight);
    let waiting = wire(state.commands);
    let frame = command.frame();
    lemma_wire_push(state.commands, command);
    assert(flying + (waiting + frame) =~= (flying + waiting) + frame);
}

/// Starting a poll changes nothing of what is still to be written.
pub proof fn lemma_begun_keeps_backlog(state: OutboundView)
    ensures
        state.begun().backlog() == state.backlog(),
{
    if state.in_flight.len() == 0 && state.commands.len() > 0 {
        let first = state.commands[0].frame();
        let rest = wire(state.commands.drop_first());
        assert(frames(state.commands).drop_first() =~= frames(state.commands.drop_first()));
        assert(wire(state.commands) == first + rest);
        assert(joined(state.in_flight) =~= Seq::<u8>::empty());
        assert(joined(state.in_flight) + (first + rest) =~= first + rest);
    }
}

/// The piece offered is the beginning of what is still to be written, and
/// when the sink has taken some of it, exactly those bytes are gone from the
/// beginning.
pub proof fn lemma_taken_shortens_backlog(state: OutboundView, accepted: nat)
    requires
        state.in_flight.len() > 0,
    ensures
        state.in_flight[0].is_prefix_of(state.backlog()),
        accepted <= state.in_flight[0].len() ==> state.taken(accepted).backlog()
            == state.backlog().skip(accepted as int),
        accepted >= state.in_flight[0].len() ==> state.taken(accepted).backlog()
            == state.backlog().skip(state.in_flight[0].len() as int),
{
    let first = state.in_flight[0];
    let rest = joined(state.in_flight.drop_first());
    assert(state.backlog() =~= first + (rest + wire(state.commands)));
    assert(state.backlog().subrange(0, first.len() as int) =~= first);
    if accepted >= first.len() {
        assert(state.taken(accepted).backlog() =~= state.backlog().skip(first.len() as int));
    } else {
        let shorter = state.in_flight.update(0, first.skip(accepted as int));
        assert(shorter.drop_first() =~= state.in_flight.drop_first());
        assert(state.taken(accepted).backlog() =~= state.backlog().skip(accepted as int));
    }
}

/// The commands that a queue holds, oldest first.
pub uninterp spec fn queued(queue: Queue<Command>) -> Seq<Command>;

/// `Queue::new`: a queue that holds nothing.
#[verifier::external_body]
fn queue_new() -> (queue: Queue<Command>)
    ensures
        queued(queue) == Seq::<Command>::empty(),
{
    Queue::new()
}

/// `IsQueue::add` of `Queue`: puts `command` behind all that the queue
/// holds. A `Queue` has no capacity limit, so the call never fails.
#[verifier::external_body]
fn queue_add(queue: &mut Queue<Command>, command: Command)
    ensures
        queued(*final(queue)) == queued(*old(queue)).push(command),
{
    let _ = queue.add(command);
}

/// `IsQueue::remove` of `Queue`: takes the oldest command out and returns
/// it; returns nothing and changes nothing where the queue is empty.
#[verifier::external_body]
fn queue_remove(queue: &mut Queue<Command>) -> (oldest: Option<Command>)
    ensures
        match oldest {
            Some(command) => queued(*old(queue)).len() > 0 && command == queued(*old(queue))[0]
                && queued(*final(queue)) == queued(*old(queue)).drop_first(),
            None => queued(*old(queue)).len() == 0 && queued(*final(queue)) == queued(
                *old(queue),
            ),
        },
{
    match queue.remove() {
        Ok(command) => Some(command),
        Err(_) => None,
    }
}

/// `IsQueue::size` of `Queue`: the number of commands that the queue holds.
#[verifier::external_body]
fn queue_size(queue: &Queue<Command>) -> (n: usize)
    ensures
        n == queued(*queue).len(),
{
    queue.size()
}

/// The dispatcher: a queue of commands and the pieces in flight.
pub struct Outbound {
    queue: Queue<Command>,
    in_flight: Vec<Vec<u8>>,
}

impl View for Outbound {
    type V = OutboundView;

    closed spec fn view(&self) -> OutboundView {
        OutboundView {
            commands: command_views(queued(self.queue)),
            in_flight: self.in_flight@.map_values(|p: Vec<u8>| p@),
        }
    }
}

/// The pieces in which `command` is written.
pub fn command_pieces(command: &Command) -> (pieces: Vec<Vec<u8>>)
    ensures
        pieces@.map_values(|p: Vec<u8>| p@) == command@.pieces(),
{
    let mut pieces: Vec<Vec<u8>> = Vec::new();
    match command {
        Command::GetState(id) => {
            pieces.push(i32_le_bytes(*id));
            pieces.push(u32_le_bytes(0));
        },
        Command::SetState(id, value) => {
            pieces.push(i32_le_bytes(*id));
            pieces.push(u32_le_bytes(1));
            let bytes = value.to_bytes_vec();
            if bytes.len() > 0 {
                pieces.push(bytes);
            }
        },
    }
    assert(pieces@.map_values(|p: Vec<u8>| p@) =~= command@.pieces());
    pieces
}

impl Outbound {
    /// Whether the dispatcher is in order: no piece in flight is empty.
    pub open spec fn wf(&self) -> bool {
        self@.wf()
    }

    /// A dispatcher with nothing to write.
    pub fn new() -> (outbound: Self)
        ensures
            outbound.wf(),
            outbound@.commands.len() == 0,
            outbound@.in_flight.len() == 0,
    {
        Outbound { queue: queue_new(), in_flight: Vec::new() }
    }

    /// Puts `command` behind all that wait. Its frame will be written after
    /// everything that is still to be written now.
    pub fn enqueue(&mut self, command: Command)
        ensures
            old(self).wf() ==> final(self).wf(),
            final(self)@.commands == old(self)@.commands.push(command@),
            final(self)@.in_flight == old(self)@.in_flight,
            final(self)@.backlog() == old(self)@.backlog() + command@.frame(),
    {
        let ghost before = self@;
        let ghost waiting = queued(self.queue);
        queue_add(&mut self.queue, command);
        proof {
            assert(command_views(waiting.push(command)) =~= command_views(waiting).push(
                command@,
            ));
            assert(self@ == OutboundView { commands: before.commands.push(command@), ..before });
            lemma_enqueue_lengthens_backlog(before, command@);
        }
    }

    /// The number of commands that wait, not counting the one in flight.
    pub fn waiting(&self) -> (n: usize)
        ensures
            n == self@.commands.len(),
    {
        queue_size(&self.queue)
    }

    /// Whether a command is partly written: some of its pieces are in flight.
    pub fn in_flight(&self) -> (b: bool)
        ensures
            b == (self@.in_flight.len() > 0),
    {
        self.in_flight.len() > 0
    }

    /// Starts a writable poll and returns the piece to offer to the sink.
    ///
    /// Where a command is in flight, its next piece is offered again. Else
    /// the oldest waiting command goes in flight and its first piece is
    /// offered. `None` means that there is nothing to write.
    pub fn send(&mut self) -> (piece: Option<Vec<u8>>)
        requires
            old(self).wf(),
        ensures
            final(self).wf(),
            final(self)@ == old(self)@.begun(),
            final(self)@.backlog() == old(self)@.backlog(),
            match piece {
                Some(bytes) => final(self)@.offer() == Some(bytes@) && bytes@.len() > 0
                    && bytes@.is_prefix_of(old(self)@.backlog()),
                None => final(self)@.offer() is None && old(self)@.backlog().len() == 0,
            },
    {
        proof {
            lemma_begun_keeps_backlog(self@);
        }
        if self.in_flight.len() == 0 {
            match queue_remove(&mut self.queue) {
                Some(command) => {
                    let ghost before = queued(old(self).queue);
                    assert(command_views(before.drop_first()) =~= command_views(
                        before,
                    ).drop_first());
                    self.in_flight = command_pieces(&command);
                },
                None => {
                    assert(joined(self@.in_flight) =~= Seq::<u8>::empty());
                    return None;
                },
            }
        }
        proof {
            lemma_taken_shortens_backlog(self@, 0);
        }
        Some(slice_to_vec(self.in_flight[0].as_slice()))
    }

    /// Records that the sink took `accepted` bytes of the piece offered, and
    /// returns the piece to offer next in the same poll.
    ///
    /// A piece taken whole leaves, and the next piece of the same command
    /// is returned. Of a piece taken in part the rest stays in flight and
    /// `None` is returned: the sink is full, the rest waits for the next
    /// poll. `None` is also returned when the command is written whole; the
    /// next command starts with the next poll. More than the piece's length
    /// counts as the whole piece. With nothing in flight nothing changes.
    pub fn written(&mut self, accepted: usize) -> (piece: Option<Vec<u8>>)
        requires
            old(self).wf(),
        ensures
            final(self).wf(),
            final(self)@ == old(self)@.taken(accepted as nat),
            match piece {
                Some(bytes) => old(self)@.offer_after(accepted as nat) == Some(bytes@),
                None => old(self)@.offer_after(accepted as nat) is None,
            },
            old(self)@.offer() matches Some(offered) ==> final(self)@.backlog() == old(
                self,
            )@.backlog().skip(
                if accepted <= offered.len() {
                    accepted as int
                } else {
                    offered.len() as int
                },
            ),
    {
        if self.in_flight.len() == 0 {
            return None;
        }
        proof {
            lemma_taken_shortens_backlog(self@, accepted as nat);
        }
        let ghost before = self.in_flight@.map_values(|p: Vec<u8>| p@);
        let first = self.in_flight.remove(0);
        if accepted >= first.len() {
            assert(self.in_flight@.map_values(|p: Vec<u8>| p@) =~= before.drop_first());
            if self.in_flight.len() > 0 {
                Some(slice_to_vec(self.in_flight[0].as_slice()))
            } else {
                None
            }
        } else {
            let rest = slice_to_vec(slice_subrange(first.as_slice(), accepted, first.len()));
            self.in_flight.insert(0, rest);
            assert(self.in_flight@.map_values(|p: Vec<u8>| p@) =~= before.update(
                0,
                before[0].skip(accepted as int),
            ));
            None
        }
    }
}

} // verus!
