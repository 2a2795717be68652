//! The thread that writes to the peer, without its socket.
//!
//! [`Writer::next`] decides what the thread does next; the thread does it and reports back.

use crate::channel::{payload_signal, recv_by_writer, Attempt, ChannelView, Signal};
use crate::channel::{writer_attempts, writer_rx_channel};
use crate::commands::WriterCommand;
use crossbeam::channel::Receiver;
use vstd::prelude::*;
use vstd::slice::slice_subrange;

verus! {

/// Why an attempt to write to the socket failed.
#[derive(Debug, Clone, Copy, PartialEq, Eq, Structural)]
pub enum WriteError {
    TimedOut,
    Interrupted,
    /// Any other error.
    Other,
}

impl WriteError {
    /// Whether the attempt is worth repeating.
    pub open spec fn retriable(self) -> bool {
        self is TimedOut || self is Interrupted
    }
}

/// What the writing thread reports.
#[derive(Debug, Clone, Copy, PartialEq, Eq, Structural)]
pub enum WriterEvent {
    /// The thread is ready for its next turn.
    Turn,
    /// The socket took this many of the pending bytes.
    Wrote(usize),
    /// The socket took none of the pending bytes because of an error.
    WriteFailed(WriteError),
}

/// What the writing thread is to do.
#[derive(Debug, Clone, Copy, PartialEq, Eq, Structural)]
pub enum WriterAction {
    /// Write the pending bytes to the socket, and report how that went.
    Write,
    /// Begin the next turn.
    NextTurn,
    /// Shut both halves of the socket down and end.
    Shutdown,
}

/// The state of the writer of one connection.
pub struct Writer {
    writer_cmd_rx: Receiver<WriterCommand>,
    /// The data that the writer is currently attempting to write. It is kept because an
    /// attempt may fail or may write only part of the data.
    buf: Option<Vec<u8>>,
    /// The index into `buf` at which the next attempt starts. A partial write moves it forward,
    /// so that no data has to be moved; a full write resets `buf` to `None` and the index to 0.
    start: usize,
}

/// What a [`Writer`] stands for.
pub struct WriterView {
    /// The receiving end of the writer's channel.
    pub rx: Receiver<WriterCommand>,
    /// The bytes that were received but not written yet.
    pub pending: Seq<u8>,
}

impl WriterView {
    /// The channel that the writer receives its commands from.
    pub open spec fn channel(self) -> ChannelView {
        writer_rx_channel(self.rx)
    }

    /// The attempts to receive a command, oldest first.
    pub open spec fn attempts(self) -> Seq<Attempt<Seq<u8>>> {
        writer_attempts(self.rx)
    }
}

impl View for Writer {
    type V = WriterView;

    closed spec fn view(&self) -> WriterView {
        WriterView {
            rx: self.writer_cmd_rx,
            pending: match self.buf {
                Some(buf) => buf@.skip(self.start as int),
                None => Seq::empty(),
            },
        }
    }
}

/// What a decision of the writer rests on besides the pending bytes.
pub enum WriterInput {
    /// A command with this payload was received.
    Received(Seq<u8>),
    /// No command is left and none can come.
    Disconnected,
    /// The socket took this many of the pending bytes.
    Wrote(nat),
    /// The socket took none of the pending bytes because of an error.
    Failed(WriteError),
}

/// Whether `input` can come up while `pending` is not written yet: commands are received only
/// when all data is written, and the socket takes no more than it is given.
pub open spec fn writer_accepts(pending: Seq<u8>, input: WriterInput) -> bool {
    match input {
        WriterInput::Received(_) | WriterInput::Disconnected => pending.len() == 0,
        WriterInput::Wrote(count) => 0 < pending.len() && count <= pending.len(),
        WriterInput::Failed(_) => 0 < pending.len(),
    }
}

/// The pending bytes and the action that follow `input`.
pub open spec fn writer_next(pending: Seq<u8>, input: WriterInput) -> (Seq<u8>, WriterAction) {
    match input {
        WriterInput::Received(data) => (data, WriterAction::NextTurn),
        WriterInput::Disconnected => (pending, WriterAction::Shutdown),
        WriterInput::Wrote(count) => if count == 0 {
            (pending, WriterAction::Shutdown)
        } else {
            (pending.skip(count as int), WriterAction::NextTurn)
        },
        WriterInput::Failed(error) => if error.retriable() {
            (pending, WriterAction::NextTurn)
        } else {
            (pending, WriterAction::Shutdown)
        },
    }
}

/// The input that a signal of the writer's channel amounts to.
pub open spec fn writer_input(signal: Signal<Seq<u8>>) -> WriterInput {
    match signal {
        Signal::Received(payload) => WriterInput::Received(payload),
        _ => WriterInput::Disconnected,
    }
}

/// Whether `event` leads from `before` to `after` and to `action`, whatever is found in the
/// channel.
pub open spec fn writer_stepped(
    before: WriterView,
    event: WriterEvent,
    action: WriterAction,
    after: WriterView,
) -> bool {
    match event {
        WriterEvent::Turn => if before.pending.len() > 0 {
            &&& action == WriterAction::Write
            &&& after == before
        } else {
            let signal = after.attempts().last().found;
            &&& signal !is Empty
            &&& after.channel() == before.channel()
            &&& after.attempts() == before.attempts().push(Attempt { block: true, found: signal })
            &&& (after.pending, action) == writer_next(before.pending, writer_input(signal))
        },
        WriterEvent::Wrote(count) => {
            &&& after.rx == before.rx
            &&& (after.pending, action) == writer_next(
                before.pending,
                WriterInput::Wrote(count as nat),
            )
        },
        WriterEvent::WriteFailed(error) => {
            &&& after.rx == before.rx
            &&& (after.pending, action) == writer_next(before.pending, WriterInput::Failed(error))
        },
    }
}

impl Writer {
    /// The index stays inside the buffer: there is a buffer exactly while bytes are pending.
    pub closed spec fn wf(self) -> bool {
        match self.buf {
            Some(buf) => self.start < buf.len(),
            None => self.start == 0,
        }
    }

    /// A writer with nothing to write.
    pub fn new(writer_cmd_rx: Receiver<WriterCommand>) -> (writer: Self)
        ensures
            writer.wf(),
            writer@ == (WriterView { rx: writer_cmd_rx, pending: Seq::empty() }),
    {
        Writer { writer_cmd_rx, buf: None, start: 0 }
    }

    /// The bytes to write next, if there are any.
    pub fn pending(&self) -> (bytes: Option<&[u8]>)
        requires
            self.wf(),
        ensures
            bytes is Some <==> self@.pending.len() > 0,
            bytes matches Some(slice) ==> slice@ == self@.pending,
    {
        match &self.buf {
            Some(buf) => {
                let bytes = slice_subrange(buf.as_slice(), self.start, buf.len());
                assert(bytes@ =~= self@.pending);
                Some(bytes)
            },
            None => None,
        }
    }

    /// Takes in what an attempt to receive a command found.
    ///
    /// Data becomes pending; empty data leaves nothing to write. Once the channel is
    /// disconnected no more data can come, and the writer shuts down.
    pub fn receive(&mut self, signal: Signal<WriterCommand>) -> (action: WriterAction)
        requires
            old(self).wf(),
            old(self)@.pending.len() == 0,
            signal !is Empty,
        ensures
            final(self).wf(),
            final(self)@.rx == old(self)@.rx,
            (final(self)@.pending, action) == writer_next(
                old(self)@.pending,
                writer_input(payload_signal(signal)),
            ),
    {
        match signal {
            Signal::Received(WriterCommand::WriteData(data)) => {
                if data.len() > 0 {
                    assert(data@.skip(0) =~= data@);
                    self.buf = Some(data);
                    self.start = 0;
                }
                WriterAction::NextTurn
            },
            _ => WriterAction::Shutdown,
        }
    }

    /// Takes in that the socket took `count` of the pending bytes.
    ///
    /// A socket that takes nothing without an error is not going to take anything any more, so
    /// the writer shuts down.
    pub fn wrote(&mut self, count: usize) -> (action: WriterAction)
        requires
            old(self).wf(),
            writer_accepts(old(self)@.pending, WriterInput::Wrote(count as nat)),
        ensures
            final(self).wf(),
            final(self)@.rx == old(self)@.rx,
            (final(self)@.pending, action) == writer_next(
                old(self)@.pending,
                WriterInput::Wrote(count as nat),
            ),
    {
        let len: usize = match &self.buf {
            Some(buf) => buf.len(),
            None => 0,
        };
        // The bytes written are those from `start` to `end`.
        let end: usize = self.start + count;
        if end == len {
            self.buf = None;
            self.start = 0;
            assert(self@.pending =~= old(self)@.pending.skip(count as int));
            WriterAction::NextTurn
        } else if count > 0 {
            self.start = end;
            assert(self@.pending =~= old(self)@.pending.skip(count as int));
            WriterAction::NextTurn
        } else {
            WriterAction::Shutdown
        }
    }

    /// Takes in that an attempt to write failed: the same bytes are tried again after a timeout
    /// or an interruption, and any other error ends the writer.
    pub fn write_failed(&self, error: WriteError) -> (action: WriterAction)
        ensures
            action == writer_next(self@.pending, WriterInput::Failed(error)).1,
    {
        match error {
            WriteError::TimedOut | WriteError::Interrupted => WriterAction::NextTurn,
            WriteError::Other => WriterAction::Shutdown,
        }
    }

    /// Decides what follows `event`. A turn writes what is pending; if nothing is, it receives
    /// the next command, blocking the thread until there is one or none can come. No more bytes
    /// can have been written than were pending.
    pub fn next(&mut self, event: WriterEvent) -> (action: WriterAction)
        requires
            old(self).wf(),
            event matches WriterEvent::Wrote(count) ==> writer_accepts(
                old(self)@.pending,
                WriterInput::Wrote(count as nat),
            ),
        ensures
            final(self).wf(),
            writer_stepped(old(self)@, event, action, final(self)@),
    {
        match event {
            WriterEvent::Turn => {
                if self.buf.is_some() {
                    WriterAction::Write
                } else {
                    let signal = recv_by_writer(&mut self.writer_cmd_rx);
                    self.receive(signal)
                }
            },
            WriterEvent::Wrote(count) => self.wrote(count),
            WriterEvent::WriteFailed(error) => self.write_failed(error),
        }
    }
}

/// What a writer did from its start on.
pub struct WriterRun {
    /// The payloads that it received, in order.
    pub received: Seq<Seq<u8>>,
    /// The bytes that the socket took, in order.
    pub written: Seq<u8>,
    /// The bytes that are still to be written.
    pub pending: Seq<u8>,
    /// Whether it was told to shut down.
    pub stopped: bool,
}

/// The run of a new writer that meets `inputs` one after the other.
pub open spec fn writer_run(inputs: Seq<WriterInput>) -> WriterRun
    decreases inputs.len(),
{
    if inputs.len() == 0 {
        WriterRun { received: seq![], written: seq![], pending: seq![], stopped: false }
    } else {
        let before = writer_run(inputs.drop_last());
        let (pending, action) = writer_next(before.pending, inputs.last());
        WriterRun {
            received: match inputs.last() {
                WriterInput::Received(data) => before.received.push(data),
                _ => before.received,
            },
            written: match inputs.last() {
                WriterInput::Wrote(count) => before.written + before.pending.take(count as int),
                _ => before.written,
            },
            pending,
            stopped: action is Shutdown,
        }
    }
}

/// Whether a new writer can meet `inputs` one after the other: each can come up when it does,
/// and none follows the shutdown.
pub open spec fn writer_run_possible(inputs: Seq<WriterInput>) -> bool
    decreases inputs.len(),
{
    inputs.len() > 0 ==> {
        let before = writer_run(inputs.drop_last());
        &&& writer_run_possible(inputs.drop_last())
        &&& !before.stopped
        &&& writer_accepts(before.pending, inputs.last())
    }
}

/// No byte is lost, repeated, invented or moved: at every point, the bytes that were received
/// are the bytes that were written, followed by those that are pending.
pub proof fn law_bytes_are_conserved(inputs: Seq<WriterInput>)
    requires
        writer_run_possible(inputs),
    ensures
        writer_run(inputs).received.flatten() == writer_run(inputs).written + writer_run(
            inputs,
        ).pending,
    decreases inputs.len(),
{
    if inputs.len() > 0 {
        law_bytes_are_conserved(inputs.drop_last());
        let before = writer_run(inputs.drop_last());
        let after = writer_run(inputs);
        match inputs.last() {
            WriterInput::Received(data) => {
                before.received.lemma_flatten_push(data);
                assert(before.written + before.pending =~= before.written);
            },
            WriterInput::Wrote(count) => {
                assert(before.pending =~= before.pending.take(count as int)
                    + before.pending.skip(count as int));
                assert(after.written + after.pending =~= before.written + before.pending);
            },
            _ => {},
        }
    }
}

/// A writer that shuts down because its channel is disconnected has written everything that it
/// received.
pub proof fn law_disconnected_writer_wrote_everything(inputs: Seq<WriterInput>)
    requires
        writer_run_possible(inputs),
        inputs.len() > 0,
        inputs.last() is Disconnected,
    ensures
        writer_run(inputs).stopped,
        writer_run(inputs).written == writer_run(inputs).received.flatten(),
{
    law_bytes_are_conserved(inputs);
    let run = writer_run(inputs);
    assert(run.written + run.pending =~= run.written);
}

/// A timeout or an interruption only costs another attempt: it leaves the run as it was, with
/// the same bytes to write.
pub proof fn law_retry_changes_nothing(inputs: Seq<WriterInput>, error: WriteError)
    requires
        writer_run_possible(inputs),
        !writer_run(inputs).stopped,
        writer_run(inputs).pending.len() > 0,
        error.retriable(),
    ensures
        writer_run_possible(inputs.push(WriterInput::Failed(error))),
        writer_run(inputs.push(WriterInput::Failed(error))) == writer_run(inputs),
{
    assert(inputs.push(WriterInput::Failed(error)).drop_last() =~= inputs);
}

/// The writer shuts down in three cases only: no command can come any more, the socket took
/// nothing, or it reported an error that is not worth a retry.
pub proof fn law_writer_shutdown_causes(pending: Seq<u8>, input: WriterInput)
    requires
        writer_accepts(pending, input),
    ensures
        writer_next(pending, input).1 is Shutdown <==> {
            ||| input is Disconnected
            ||| input == WriterInput::Wrote(0)
            ||| input == WriterInput::Failed(WriteError::Other)
        },
{
}

/// As a channel hands its commands out in the order in which it took them over, what the socket
/// took is always a prefix of the accepted data. `accepted` are the payloads that the channel
/// took over; the writer has received the first of them.
pub proof fn law_written_is_prefix_of_accepted(accepted: Seq<Seq<u8>>, inputs: Seq<WriterInput>)
    requires
        writer_run_possible(inputs),
        writer_run(inputs).received.is_prefix_of(accepted),
    ensures
        writer_run(inputs).written.is_prefix_of(accepted.flatten()),
{
    law_bytes_are_conserved(inputs);
    let run = writer_run(inputs);
    let later = accepted.skip(run.received.len() as int);
    assert(accepted =~= run.received + later);
    vstd::seq_lib::lemma_flatten_concat(run.received, later);
    assert(accepted.flatten() == run.written + run.pending + later.flatten());
    assert(run.written =~= accepted.flatten().subrange(0, run.written.len() as int));
}

/// The payloads of the commands that were received, in order.
pub open spec fn received_payloads(attempts: Seq<Attempt<Seq<u8>>>) -> Seq<Seq<u8>>
    decreases attempts.len(),
{
    if attempts.len() == 0 {
        seq![]
    } else {
        let earlier = received_payloads(attempts.drop_last());
        match attempts.last().found {
            Signal::Received(payload) => earlier.push(payload),
            _ => earlier,
        }
    }
}

/// A writing thread at work: a sequence of calls of [`Writer::next`], the action of each
/// performed and reported with the next.
pub struct WriterTrace {
    /// The writer before the first call, and after each.
    pub views: Seq<WriterView>,
    /// What each call was told.
    pub events: Seq<WriterEvent>,
    /// What each call decided.
    pub actions: Seq<WriterAction>,
}

impl WriterTrace {
    /// Whether the thread can tell the writer this event in call `i`: it performed the last action.
    pub open spec fn event_follows(self, i: int) -> bool {
        let last = if i == 0 {
            WriterAction::NextTurn
        } else {
            self.actions[i - 1]
        };
        match last {
            WriterAction::NextTurn => self.events[i] is Turn,
            WriterAction::Write => match self.events[i] {
                WriterEvent::Turn => false,
                WriterEvent::Wrote(count) => count <= self.views[i].pending.len(),
                WriterEvent::WriteFailed(_) => true,
            },
            WriterAction::Shutdown => false,
        }
    }

    /// Whether a thread can go through this with a writer that has nothing to write at first.
    pub open spec fn possible(self) -> bool {
        &&& self.views.len() == self.events.len() + 1
        &&& self.actions.len() == self.events.len()
        &&& self.views[0].pending.len() == 0
        &&& forall|i: int|
            0 <= i < self.events.len() ==> #[trigger] self.event_follows(i) && writer_stepped(
                self.views[i],
                self.events[i],
                self.actions[i],
                self.views[i + 1],
            )
    }

    /// What the decisions of the first `count` calls rested on. A turn that only hands the
    /// pending bytes out rests on nothing else.
    pub open spec fn inputs(self, count: nat) -> Seq<WriterInput>
        decreases count,
    {
        if count == 0 {
            seq![]
        } else {
            let i = count - 1;
            let earlier = self.inputs(i as nat);
            match self.events[i] {
                WriterEvent::Turn => if self.views[i].pending.len() > 0 {
                    earlier
                } else {
                    earlier.push(writer_input(self.views[i + 1].attempts().last().found))
                },
                WriterEvent::Wrote(written) => earlier.push(WriterInput::Wrote(written as nat)),
                WriterEvent::WriteFailed(error) => earlier.push(WriterInput::Failed(error)),
            }
        }
    }

    /// The run that the whole trace amounts to.
    pub open spec fn run(self) -> WriterRun {
        writer_run(self.inputs(self.events.len()))
    }
}

/// After any number of calls, a writer is where the run of its inputs leads: what is pending is
/// the same, and what it received is what its channel handed out.
pub proof fn law_trace_is_a_run(trace: WriterTrace, count: nat)
    requires
        trace.possible(),
        count <= trace.events.len(),
    ensures
        writer_run_possible(trace.inputs(count)),
        writer_run(trace.inputs(count)).pending == trace.views[count as int].pending,
        writer_run(trace.inputs(count)).stopped <==> count > 0 && trace.actions[count - 1]
            is Shutdown,
        received_payloads(trace.views[count as int].attempts()) == received_payloads(
            trace.views[0].attempts(),
        ) + writer_run(trace.inputs(count)).received,
        trace.views[count as int].channel() == trace.views[0].channel(),
        count > 0 && trace.actions[count - 1] is Write ==> trace.views[count as int].pending.len()
            > 0,
    decreases count,
{
    let before_received = received_payloads(trace.views[0].attempts());
    if count == 0 {
        assert(trace.views[0].pending =~= Seq::empty());
        assert(before_received + writer_run(trace.inputs(0)).received =~= before_received);
    } else {
        let i = count - 1;
        law_trace_is_a_run(trace, i as nat);
        assert(trace.event_follows(i));
        let earlier = trace.inputs(i as nat);
        let before = trace.views[i];
        let after = trace.views[i + 1];
        let inputs = trace.inputs(count);
        if trace.events[i] is Turn && before.pending.len() > 0 {
            assert(inputs == earlier);
        } else {
            assert(inputs.drop_last() =~= earlier);
            if trace.events[i] is Turn {
                assert(after.attempts().drop_last() =~= before.attempts());
                assert(received_payloads(after.attempts()) =~= before_received + writer_run(
                    inputs,
                ).received);
            }
        }
    }
}

/// The steps of a trace are the calls of [`Writer::next`]. It can be called with every event, as
/// long as no more bytes are reported as written than were pending, and each call is such a step.
pub proof fn law_writer_calls_are_steps()
    ensures
        forall|writer: &mut Writer, event: WriterEvent|
            writer.wf() && (event matches WriterEvent::Wrote(count) ==> 0 < writer@.pending.len()
                && count <= writer@.pending.len()) ==> #[trigger] call_requires(
                Writer::next,
                (writer, event),
            ),
        forall|writer: &mut Writer, event: WriterEvent, action: WriterAction|
            writer.wf() && #[trigger] call_ensures(Writer::next, (writer, event), action) ==> {
                &&& final(writer).wf()
                &&& writer_stepped(writer@, event, action, final(writer)@)
            },
{
}

/// Pending bytes are handed to the socket: every turn that begins with some decides to write them,
/// however many they are, and leaves everything as it is. No command is received while bytes are
/// pending.
pub proof fn law_pending_bytes_are_written(trace: WriterTrace, i: int)
    requires
        trace.possible(),
        0 <= i < trace.events.len(),
        trace.views[i].pending.len() > 0,
    ensures
        trace.events[i] is Turn ==> trace.actions[i] is Write,
        trace.events[i] is Turn ==> trace.views[i + 1].pending == trace.views[i].pending,
        trace.views[i + 1].attempts() == trace.views[i].attempts(),
{
    assert(trace.event_follows(i));
}

/// The writing thread writes only what is pending, and is never idle while something is: a call
/// that leaves bytes pending either has the thread write them, or has it take a turn that does,
/// unless it shuts down.
pub proof fn law_writer_makes_progress(trace: WriterTrace, i: int)
    requires
        trace.possible(),
        0 <= i < trace.events.len(),
    ensures
        trace.actions[i] is Write ==> trace.events[i] is Turn && trace.views[i + 1].pending.len()
            > 0,
        trace.views[i + 1].pending.len() > 0 && trace.actions[i] is NextTurn && i + 1
            < trace.events.len() ==> trace.events[i + 1] is Turn && trace.actions[i + 1] is Write
            && trace.views[i + 2].pending == trace.views[i + 1].pending,
        trace.actions[i] is Write && i + 1 < trace.events.len() ==> trace.events[i + 1] !is Turn,
        trace.actions[i] is Shutdown ==> i + 1 == trace.events.len(),
{
    assert(trace.event_follows(i));
    law_trace_is_a_run(trace, (i + 1) as nat);
    if i + 1 < trace.events.len() {
        assert(trace.event_follows(i + 1));
        if trace.views[i + 1].pending.len() > 0 {
            law_pending_bytes_are_written(trace, i + 1);
        }
    }
}

/// A turn that begins with nothing to write receives once, blocking the thread: a payload becomes
/// what is pending, all of it, and another turn follows; otherwise no payload can come any more,
/// and the writer shuts down.
pub proof fn law_idle_turn_receives(trace: WriterTrace, i: int)
    requires
        trace.possible(),
        0 <= i < trace.events.len(),
        trace.events[i] is Turn,
        trace.views[i].pending.len() == 0,
    ensures
        ({
            let attempts = trace.views[i + 1].attempts();
            &&& attempts.len() == trace.views[i].attempts().len() + 1
            &&& attempts.drop_last() == trace.views[i].attempts()
            &&& attempts.last().block
            &&& attempts.last().found matches Signal::Received(payload)
                ==> trace.views[i + 1].pending == payload && trace.actions[i] is NextTurn
            &&& attempts.last().found !is Received ==> attempts.last().found is Disconnected
                && trace.views[i + 1].pending.len() == 0 && trace.actions[i] is Shutdown
        }),
{
    assert(trace.event_follows(i));
    assert(trace.views[i + 1].attempts().drop_last() =~= trace.views[i].attempts());
}

/// A write takes the bytes that the socket took off the front of the pending ones and leaves the
/// rest: however many were taken, those and what is still pending make up what was pending. The
/// next turn follows if any were taken, and the writer shuts down if none were.
pub proof fn law_write_takes_bytes_off_the_front(trace: WriterTrace, i: int, count: usize)
    requires
        trace.possible(),
        0 <= i < trace.events.len(),
        trace.events[i] == WriterEvent::Wrote(count),
    ensures
        trace.views[i + 1].pending.len() == trace.views[i].pending.len() - count,
        trace.views[i].pending.take(count as int) + trace.views[i + 1].pending
            == trace.views[i].pending,
        trace.views[i + 1].attempts() == trace.views[i].attempts(),
        count > 0 <==> trace.actions[i] is NextTurn,
        count == 0 <==> trace.actions[i] is Shutdown,
{
    assert(trace.event_follows(i));
    assert(trace.views[i].pending.take(count as int) + trace.views[i + 1].pending
        =~= trace.views[i].pending);
}

/// A failed write leaves all bytes pending. After a timeout or an interruption the next turn
/// follows, and after any other error the writer shuts down.
pub proof fn law_failed_write_keeps_the_bytes(trace: WriterTrace, i: int, error: WriteError)
    requires
        trace.possible(),
        0 <= i < trace.events.len(),
        trace.events[i] == WriterEvent::WriteFailed(error),
    ensures
        trace.views[i + 1].pending == trace.views[i].pending,
        trace.views[i + 1].attempts() == trace.views[i].attempts(),
        error is TimedOut || error is Interrupted ==> trace.actions[i] is NextTurn,
        error is Other ==> trace.actions[i] is Shutdown,
{
    assert(trace.event_follows(i));
}

/// What a writer gives to be written is all that is pending, whatever its length, and there is
/// something to give exactly if something is pending.
pub proof fn law_all_pending_bytes_are_given(writer: Writer, bytes: Option<&[u8]>)
    requires
        writer.wf(),
        call_ensures(Writer::pending, (&writer,), bytes),
    ensures
        bytes matches Some(slice) ==> slice@ == writer@.pending && slice@.len() > 0,
        bytes is None ==> writer@.pending.len() == 0,
{
}

/// A new writer has nothing to write, and receives through the end that it was made with.
pub proof fn law_new_writer_is_idle(rx: Receiver<WriterCommand>, writer: Writer)
    requires
        call_ensures(Writer::new, (rx,), writer),
    ensures
        writer.wf(),
        writer@.pending.len() == 0,
        writer@.rx == rx,
{
}

/// Taking in what was received, written or refused, one by one: received data is pending, all of
/// it; written bytes come off the front; and a failed write is repeated only after a timeout or an
/// interruption.
pub proof fn law_writer_takes_in_each_report()
    ensures
        forall|writer: &mut Writer, signal: Signal<WriterCommand>, action: WriterAction|
            writer.wf() && writer@.pending.len() == 0 && signal !is Empty
                && #[trigger] call_ensures(Writer::receive, (writer, signal), action) ==> {
                &&& final(writer).wf()
                &&& final(writer)@.rx == writer@.rx
                &&& signal matches Signal::Received(WriterCommand::WriteData(data))
                    ==> final(writer)@.pending == data@ && action is NextTurn
                &&& signal is Disconnected ==> final(writer)@.pending.len() == 0
                    && action is Shutdown
            },
        forall|writer: &mut Writer, count: usize, action: WriterAction|
            writer.wf() && 0 < writer@.pending.len() && count <= writer@.pending.len()
                && #[trigger] call_ensures(Writer::wrote, (writer, count), action) ==> {
                &&& final(writer).wf()
                &&& final(writer)@.rx == writer@.rx
                &&& writer@.pending.take(count as int) + final(writer)@.pending == writer@.pending
                &&& count > 0 ==> action is NextTurn
                &&& count == 0 ==> action is Shutdown
            },
        forall|writer: &Writer, error: WriteError, action: WriterAction| #[trigger]
            call_ensures(Writer::write_failed, (writer, error), action) ==> {
                &&& error is TimedOut || error is Interrupted ==> action is NextTurn
                &&& error is Other ==> action is Shutdown
            },
{
    assert forall|writer: &mut Writer, count: usize, action: WriterAction|
        writer.wf() && 0 < writer@.pending.len() && count <= writer@.pending.len()
            && #[trigger] call_ensures(
            Writer::wrote,
            (writer, count),
            action,
        ) implies writer@.pending.take(count as int) + final(writer)@.pending
        == writer@.pending by {
        assert(writer@.pending.take(count as int) + final(writer)@.pending =~= writer@.pending);
    }
}

} // verus!
