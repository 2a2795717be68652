//! The thread that reads from the peer, without its socket and its peer manager.
//!
//! [`Reader::next`] decides what the thread does next; the thread does it and reports back.

use crate::channel::{reader_attempts, reader_rx_channel};
use crate::channel::{recv_by_reader, try_recv_by_reader, Attempt, ChannelView, Signal};
use crate::commands::ReaderCommand;
use crossbeam::channel::Receiver;
use vstd::prelude::*;

verus! {

/// The size of the buffer that the reading thread reads into. It is nice and big but does not
/// strain the stack.
pub const READ_BUFFER_SIZE: usize = 8192;

/// How something that the reading thread was to do went.
#[derive(Debug, Clone, Copy, PartialEq, Eq, Structural)]
pub enum ReaderReport {
    /// The socket gave this many bytes.
    BytesRead(usize),
    /// The socket gave an error.
    ReadFailed,
    /// The peer manager took the bytes that were read, and asks for reads to pause or not.
    EventHandled { pause_read: bool },
    /// The peer manager wants to be disconnected from the peer.
    EventRejected,
}

/// What the reading thread tells the reader.
#[derive(Debug, Clone, Copy, PartialEq, Eq, Structural)]
pub enum ReaderEvent {
    /// The thread is ready for its next turn.
    Turn,
    /// The last action was performed.
    Report(ReaderReport),
}

/// What the reading thread is to do.
#[derive(Debug, Clone, Copy, PartialEq, Eq, Structural)]
pub enum ReaderAction {
    /// Begin the next turn.
    NextTurn,
    /// Read from the socket, blocking until there is something to read, and report how that went.
    Read,
    /// Hand the first `len` bytes that were read to the peer manager as a read event, and report
    /// how that went.
    ReadEvent { len: usize },
    /// Have the peer manager process its events, then begin the next turn.
    ProcessEvents,
    /// Shut both halves of the socket down and end.
    Shutdown,
}

/// The state of the reader of one connection.
pub struct Reader {
    reader_cmd_rx: Receiver<ReaderCommand>,
    read_paused: bool,
}

/// What a [`Reader`] stands for.
pub struct ReaderView {
    /// The receiving end of the reader's channel.
    pub rx: Receiver<ReaderCommand>,
    /// Whether reads are paused.
    pub read_paused: bool,
}

impl ReaderView {
    /// The channel that the reader receives its commands from.
    pub open spec fn channel(self) -> ChannelView {
        reader_rx_channel(self.rx)
    }

    /// The attempts to receive a command, oldest first.
    pub open spec fn attempts(self) -> Seq<Attempt<ReaderCommand>> {
        reader_attempts(self.rx)
    }
}

impl View for Reader {
    type V = ReaderView;

    closed spec fn view(&self) -> ReaderView {
        ReaderView { rx: self.reader_cmd_rx, read_paused: self.read_paused }
    }
}

/// Whether reads are paused after `signal`, if `paused` says so before it.
pub open spec fn paused_after(paused: bool, signal: Signal<ReaderCommand>) -> bool {
    match signal {
        Signal::Received(ReaderCommand::PauseRead) => true,
        Signal::Received(ReaderCommand::ResumeRead) => false,
        _ => paused,
    }
}

/// What a decision of the reader rests on besides whether reads are paused.
pub enum ReaderInput {
    /// A turn begins. `poll` is what a first look into the channel finds, and `wait` what a
    /// paused reader finds when it then waits for a command.
    Turn { poll: Signal<ReaderCommand>, wait: Signal<ReaderCommand> },
    /// The last action was performed.
    Report(ReaderReport),
}

/// Whether a turn that finds `poll` goes on to wait for a command.
pub open spec fn turn_waits(paused: bool, poll: Signal<ReaderCommand>) -> bool {
    poll !is Disconnected && paused_after(paused, poll)
}

/// The attempts that a turn makes to receive a command, in order.
pub open spec fn turn_attempts(
    paused: bool,
    poll: Signal<ReaderCommand>,
    wait: Signal<ReaderCommand>,
) -> Seq<Attempt<ReaderCommand>> {
    let first = Attempt { block: false, found: poll };
    if turn_waits(paused, poll) {
        seq![first, Attempt { block: true, found: wait }]
    } else {
        seq![first]
    }
}

/// Whether reads are paused after `input`, and the action that follows it.
pub open spec fn reader_next(paused: bool, input: ReaderInput) -> (bool, ReaderAction) {
    match input {
        ReaderInput::Turn { poll, wait } => if poll is Disconnected {
            (paused, ReaderAction::Shutdown)
        } else if !paused_after(paused, poll) {
            (false, ReaderAction::Read)
        } else if wait is Disconnected {
            (true, ReaderAction::Shutdown)
        } else {
            (paused_after(true, wait), ReaderAction::NextTurn)
        },
        ReaderInput::Report(ReaderReport::BytesRead(len)) => if len == 0 {
            (paused, ReaderAction::Shutdown)
        } else {
            (paused, ReaderAction::ReadEvent { len })
        },
        ReaderInput::Report(ReaderReport::ReadFailed) => (paused, ReaderAction::Shutdown),
        ReaderInput::Report(ReaderReport::EventHandled { pause_read }) => (
            paused || pause_read,
            ReaderAction::ProcessEvents,
        ),
        ReaderInput::Report(ReaderReport::EventRejected) => (paused, ReaderAction::Shutdown),
    }
}

/// Whether a turn leads from `before` to `after` and to `action`, whatever it finds in the
/// channel.
pub open spec fn turned(before: ReaderView, action: ReaderAction, after: ReaderView) -> bool {
    &&& after.channel() == before.channel()
    &&& exists|poll: Signal<ReaderCommand>, wait: Signal<ReaderCommand>|
        #![trigger turn_attempts(before.read_paused, poll, wait)]
        {
            &&& wait !is Empty
            &&& after.attempts() == before.attempts() + turn_attempts(
                before.read_paused,
                poll,
                wait,
            )
            &&& (after.read_paused, action) == reader_next(
                before.read_paused,
                ReaderInput::Turn { poll, wait },
            )
        }
}

/// Whether `event` leads from `before` to `after` and to `action`, whatever is found in the
/// channel.
pub open spec fn reader_stepped(
    before: ReaderView,
    event: ReaderEvent,
    action: ReaderAction,
    after: ReaderView,
) -> bool {
    match event {
        ReaderEvent::Turn => turned(before, action, after),
        ReaderEvent::Report(report) => {
            &&& after.rx == before.rx
            &&& (after.read_paused, action) == reader_next(
                before.read_paused,
                ReaderInput::Report(report),
            )
        },
    }
}

impl Reader {
    /// A reader that is not paused.
    pub fn new(reader_cmd_rx: Receiver<ReaderCommand>) -> (reader: Self)
        ensures
            reader@ == (ReaderView { rx: reader_cmd_rx, read_paused: false }),
    {
        Reader { reader_cmd_rx, read_paused: false }
    }

    /// Whether reads are paused.
    pub fn read_paused(&self) -> (paused: bool)
        ensures
            paused == self@.read_paused,
    {
        self.read_paused
    }

    /// Takes in what an attempt to receive a command found, and returns whether the reader
    /// should shut down.
    pub fn apply(&mut self, signal: Signal<ReaderCommand>) -> (shutdown: bool)
        ensures
            shutdown <==> signal is Disconnected,
            final(self)@ == (ReaderView {
                read_paused: paused_after(old(self)@.read_paused, signal),
                ..old(self)@
            }),
    {
        match signal {
            Signal::Received(ReaderCommand::PauseRead) => {
                self.read_paused = true;
                false
            },
            Signal::Received(ReaderCommand::ResumeRead) => {
                self.read_paused = false;
                false
            },
            Signal::Empty => false,
            Signal::Disconnected => true,
        }
    }

    /// Handles a potential command in a blocking or non-blocking manner, and returns whether the
    /// reader should shut down.
    pub fn handle_command(&mut self, block: bool) -> (shutdown: bool)
        ensures
            ({
                let signal = final(self)@.attempts().last().found;
                &&& block ==> signal !is Empty
                &&& shutdown <==> signal is Disconnected
                &&& final(self)@.channel() == old(self)@.channel()
                &&& final(self)@.attempts() == old(self)@.attempts().push(
                    Attempt { block, found: signal },
                )
                &&& final(self)@.read_paused == paused_after(old(self)@.read_paused, signal)
            }),
    {
        let signal = if block {
            recv_by_reader(&mut self.reader_cmd_rx)
        } else {
            try_recv_by_reader(&mut self.reader_cmd_rx)
        };
        self.apply(signal)
    }

    /// Decides what follows `event`.
    ///
    /// A turn looks for a command without waiting, in case reads are to pause. If reads are
    /// paused it then waits for a command rather than read; otherwise it reads.
    pub fn next(&mut self, event: ReaderEvent) -> (action: ReaderAction)
        ensures
            reader_stepped(old(self)@, event, action, final(self)@),
    {
        match event {
            ReaderEvent::Turn => self.turn(),
            ReaderEvent::Report(ReaderReport::BytesRead(len)) => if len == 0 {
                // The peer disconnected.
                ReaderAction::Shutdown
            } else {
                ReaderAction::ReadEvent { len }
            },
            ReaderEvent::Report(ReaderReport::ReadFailed) => ReaderAction::Shutdown,
            ReaderEvent::Report(ReaderReport::EventHandled { pause_read }) => {
                if pause_read {
                    self.read_paused = true;
                }
                ReaderAction::ProcessEvents
            },
            ReaderEvent::Report(ReaderReport::EventRejected) => ReaderAction::Shutdown,
        }
    }

    /// One turn: looks for a command, waits for one if reads are paused, and decides whether to
    /// read.
    fn turn(&mut self) -> (action: ReaderAction)
        ensures
            turned(old(self)@, action, final(self)@),
    {
        let ghost before = self@;
        let shutdown = self.handle_command(false);
        let ghost poll = self@.attempts().last().found;
        if shutdown || !self.read_paused {
            let ghost wait: Signal<ReaderCommand> = Signal::Disconnected;
            assert(self@.attempts() =~= before.attempts() + turn_attempts(
                before.read_paused,
                poll,
                wait,
            ));
            if shutdown {
                ReaderAction::Shutdown
            } else {
                ReaderAction::Read
            }
        } else {
            let shutdown = self.handle_command(true);
            let ghost wait = self@.attempts().last().found;
            assert(self@.attempts() =~= before.attempts() + turn_attempts(
                before.read_paused,
                poll,
                wait,
            ));
            if shutdown {
                ReaderAction::Shutdown
            } else {
                ReaderAction::NextTurn
            }
        }
    }
}

/// Whether `input` can come up once `action` is performed.
pub open spec fn reader_accepts(action: ReaderAction, input: ReaderInput) -> bool {
    match action {
        ReaderAction::NextTurn | ReaderAction::ProcessEvents => {
            input matches ReaderInput::Turn { poll: _, wait } && wait !is Empty
        },
        ReaderAction::Read => {
            ||| input matches ReaderInput::Report(ReaderReport::BytesRead(_))
            ||| input matches ReaderInput::Report(ReaderReport::ReadFailed)
        },
        ReaderAction::ReadEvent { len: _ } => {
            ||| input matches ReaderInput::Report(ReaderReport::EventHandled { pause_read: _ })
            ||| input matches ReaderInput::Report(ReaderReport::EventRejected)
        },
        ReaderAction::Shutdown => false,
    }
}

/// Where a reader stands: whether reads are paused, and what its thread is to do.
pub struct ReaderState {
    pub paused: bool,
    pub action: ReaderAction,
}

/// Where a new reader stands.
pub open spec fn reader_start() -> ReaderState {
    ReaderState { paused: false, action: ReaderAction::NextTurn }
}

/// Where a reader stands that has met `inputs` one after the other, beginning at `from`.
pub open spec fn reader_run(from: ReaderState, inputs: Seq<ReaderInput>) -> ReaderState
    decreases inputs.len(),
{
    if inputs.len() == 0 {
        from
    } else {
        let before = reader_run(from, inputs.drop_last());
        let (paused, action) = reader_next(before.paused, inputs.last());
        ReaderState { paused, action }
    }
}

/// Whether a reader at `from` can meet `inputs` one after the other.
pub open spec fn reader_run_possible(from: ReaderState, inputs: Seq<ReaderInput>) -> bool
    decreases inputs.len(),
{
    inputs.len() > 0 ==> {
        &&& reader_run_possible(from, inputs.drop_last())
        &&& reader_accepts(reader_run(from, inputs.drop_last()).action, inputs.last())
    }
}

/// Whether `input` brings the command to resume reads.
pub open spec fn resumes(input: ReaderInput) -> bool {
    input matches ReaderInput::Turn { poll, wait } && {
        ||| poll == Signal::Received(ReaderCommand::ResumeRead)
        ||| wait == Signal::Received(ReaderCommand::ResumeRead)
    }
}

/// Once reads are paused and a turn begins, nothing is read and nothing is handed to the peer
/// manager until the command to resume comes: the reader stays paused and its thread does
/// nothing but take turns, unless it shuts down.
pub proof fn law_paused_reader_does_not_read(from: ReaderState, inputs: Seq<ReaderInput>)
    requires
        from.paused,
        from.action is NextTurn || from.action is ProcessEvents,
        reader_run_possible(from, inputs),
        inputs.len() > 0,
        forall|i: int| 0 <= i < inputs.len() ==> !resumes(#[trigger] inputs[i]),
    ensures
        reader_run(from, inputs).paused,
        reader_run(from, inputs).action is NextTurn || reader_run(from, inputs).action is Shutdown,
    decreases inputs.len(),
{
    assert(!resumes(inputs[inputs.len() - 1]));
    if inputs.len() > 1 {
        let earlier = inputs.drop_last();
        assert forall|i: int| 0 <= i < earlier.len() implies !resumes(#[trigger] earlier[i]) by {
            assert(!resumes(inputs[i]));
        }
        law_paused_reader_does_not_read(from, earlier);
    }
}

/// Whenever the thread of a reader is to read, reads are not paused; whenever it hands bytes to
/// the peer manager, there are some and reads are not paused either.
pub proof fn law_reads_only_while_not_paused(inputs: Seq<ReaderInput>)
    requires
        reader_run_possible(reader_start(), inputs),
    ensures
        reader_run(reader_start(), inputs).action is Read ==> !reader_run(
            reader_start(),
            inputs,
        ).paused,
        reader_run(reader_start(), inputs).action matches ReaderAction::ReadEvent { len } ==> len
            > 0 && !reader_run(reader_start(), inputs).paused,
    decreases inputs.len(),
{
    if inputs.len() > 0 {
        law_reads_only_while_not_paused(inputs.drop_last());
    }
}

/// The last command wins: a reader that received one is paused exactly if it was the command to
/// pause, whatever came before.
pub proof fn law_last_command_wins(paused: bool, cmd: ReaderCommand)
    ensures
        paused_after(paused, Signal::Received(cmd)) <==> cmd is PauseRead,
{
}

/// A turn in which the reader is or becomes paused waits for a command instead of reading, so
/// that a paused reader does not spin.
pub proof fn law_paused_turn_waits(
    paused: bool,
    poll: Signal<ReaderCommand>,
    wait: Signal<ReaderCommand>,
)
    requires
        poll !is Disconnected,
        paused_after(paused, poll),
    ensures
        turn_attempts(paused, poll, wait) == seq![
            Attempt { block: false, found: poll },
            Attempt { block: true, found: wait },
        ],
        reader_next(paused, ReaderInput::Turn { poll, wait }).1 !is Read,
{
}

/// The command to resume takes effect: found at the beginning of a turn it leads to a read at
/// once, and found by a waiting reader it leads to a read in the next turn, unless that turn
/// finds another command or a disconnected channel.
pub proof fn law_resumed_reader_reads(
    paused: bool,
    poll: Signal<ReaderCommand>,
    wait: Signal<ReaderCommand>,
)
    ensures
        reader_next(
            paused,
            ReaderInput::Turn { poll: Signal::Received(ReaderCommand::ResumeRead), wait },
        ) == (false, ReaderAction::Read),
        turn_waits(paused, poll) ==> ({
            let resume = Signal::Received(ReaderCommand::ResumeRead);
            let (after, action) = reader_next(paused, ReaderInput::Turn { poll, wait: resume });
            &&& action is NextTurn
            &&& reader_next(after, ReaderInput::Turn { poll: Signal::Empty, wait }) == (
                false,
                ReaderAction::Read,
            )
        }),
{
}

/// The reader shuts down in these cases only: its channel is found disconnected, the peer
/// disconnected (the socket gave nothing or an error), or the peer manager rejected what was
/// read.
pub proof fn law_reader_shutdown_causes(paused: bool, input: ReaderInput)
    ensures
        reader_next(paused, input).1 is Shutdown <==> match input {
            ReaderInput::Turn { poll, wait } => {
                ||| poll is Disconnected
                ||| turn_waits(paused, poll) && wait is Disconnected
            },
            ReaderInput::Report(report) => {
                ||| report == ReaderReport::BytesRead(0)
                ||| report is ReadFailed
                ||| report is EventRejected
            },
        },
{
}

/// Events are processed exactly after a read event that the peer manager took, and what follows
/// that is a turn.
pub proof fn law_handled_events_are_processed(paused: bool, input: ReaderInput)
    ensures
        reader_next(paused, input).1 is ProcessEvents <==> input matches ReaderInput::Report(
            ReaderReport::EventHandled { pause_read: _ },
        ),
        reader_accepts(ReaderAction::ProcessEvents, input) ==> input is Turn,
{
}

/// A reading thread at work: a sequence of calls of [`Reader::next`], the action of each performed
/// and reported with the next.
pub struct ReaderTrace {
    /// The reader before the first call, and after each.
    pub views: Seq<ReaderView>,
    /// What each call was told.
    pub events: Seq<ReaderEvent>,
    /// What each call decided.
    pub actions: Seq<ReaderAction>,
}

impl ReaderTrace {
    /// What the thread is to do after the first `count` calls. It begins with a turn.
    pub open spec fn due(self, count: nat) -> ReaderAction {
        if count == 0 {
            ReaderAction::NextTurn
        } else {
            self.actions[count - 1]
        }
    }

    /// Whether the thread can tell the reader this event in call `i`: it performed the last action.
    pub open spec fn event_follows(self, i: int) -> bool {
        match self.due(i as nat) {
            ReaderAction::NextTurn | ReaderAction::ProcessEvents => self.events[i] is Turn,
            ReaderAction::Read => {
                ||| self.events[i] matches ReaderEvent::Report(ReaderReport::BytesRead(_))
                ||| self.events[i] matches ReaderEvent::Report(ReaderReport::ReadFailed)
            },
            ReaderAction::ReadEvent { len: _ } => {
                ||| self.events[i] matches ReaderEvent::Report(
                    ReaderReport::EventHandled { pause_read: _ },
                )
                ||| self.events[i] matches ReaderEvent::Report(ReaderReport::EventRejected)
            },
            ReaderAction::Shutdown => false,
        }
    }

    /// Whether a thread can go through this with a new reader.
    pub open spec fn possible(self) -> bool {
        &&& self.views.len() == self.events.len() + 1
        &&& self.actions.len() == self.events.len()
        &&& !self.views[0].read_paused
        &&& forall|i: int|
            0 <= i < self.events.len() ==> #[trigger] self.event_follows(i) && reader_stepped(
                self.views[i],
                self.events[i],
                self.actions[i],
                self.views[i + 1],
            )
    }

    /// What the first look of the turn in call `i` finds in the channel.
    pub open spec fn poll(self, i: int) -> Signal<ReaderCommand> {
        self.views[i + 1].attempts()[self.views[i].attempts().len() as int].found
    }

    /// What the turn in call `i` finds when it waits for a command. A turn that does not wait
    /// finds nothing; a disconnected channel stands for that.
    pub open spec fn wait(self, i: int) -> Signal<ReaderCommand> {
        if turn_waits(self.views[i].read_paused, self.poll(i)) {
            self.views[i + 1].attempts()[self.views[i].attempts().len() as int + 1].found
        } else {
            Signal::Disconnected
        }
    }

    /// What the decision of call `i` rested on.
    pub open spec fn input(self, i: int) -> ReaderInput {
        match self.events[i] {
            ReaderEvent::Turn => ReaderInput::Turn { poll: self.poll(i), wait: self.wait(i) },
            ReaderEvent::Report(report) => ReaderInput::Report(report),
        }
    }

    /// What the decisions of the first `count` calls rested on.
    pub open spec fn inputs(self, count: nat) -> Seq<ReaderInput> {
        Seq::new(count, |i: int| self.input(i))
    }

    /// The attempts to receive a command that the turns among the first `count` calls make, one
    /// turn after the other.
    pub open spec fn attempts(self, count: nat) -> Seq<Attempt<ReaderCommand>>
        decreases count,
    {
        if count == 0 {
            seq![]
        } else {
            let i = count - 1;
            let earlier = self.attempts(i as nat);
            match self.events[i] {
                ReaderEvent::Turn => earlier + turn_attempts(
                    self.views[i].read_paused,
                    self.poll(i),
                    self.wait(i),
                ),
                ReaderEvent::Report(_) => earlier,
            }
        }
    }
}

/// What call `i` of a trace comes to, over what it found in the channel.
proof fn lemma_trace_step(trace: ReaderTrace, i: int)
    requires
        trace.possible(),
        0 <= i < trace.events.len(),
    ensures
        (trace.views[i + 1].read_paused, trace.actions[i]) == reader_next(
            trace.views[i].read_paused,
            trace.input(i),
        ),
        trace.views[i + 1].channel() == trace.views[i].channel(),
        trace.events[i] is Turn ==> trace.wait(i) !is Empty && trace.views[i + 1].attempts()
            == trace.views[i].attempts() + turn_attempts(
            trace.views[i].read_paused,
            trace.poll(i),
            trace.wait(i),
        ),
        trace.events[i] !is Turn ==> trace.views[i + 1].attempts() == trace.views[i].attempts(),
{
    assert(trace.event_follows(i));
    let before = trace.views[i];
    let after = trace.views[i + 1];
    if trace.events[i] is Turn {
        let (poll, wait) = choose|poll: Signal<ReaderCommand>, wait: Signal<ReaderCommand>|
            #![trigger turn_attempts(before.read_paused, poll, wait)]
            {
                &&& wait !is Empty
                &&& after.attempts() == before.attempts() + turn_attempts(
                    before.read_paused,
                    poll,
                    wait,
                )
                &&& (after.read_paused, trace.actions[i]) == reader_next(
                    before.read_paused,
                    ReaderInput::Turn { poll, wait },
                )
            };
        assert(trace.poll(i) == poll);
        if turn_waits(before.read_paused, poll) {
            assert(trace.wait(i) == wait);
        }
    }
}

/// After any number of calls, a reader is where the run of its inputs leads: whether reads are
/// paused and what its thread is to do are the same, and its attempts to receive a command are
/// those of its turns, one after the other, on the same channel.
pub proof fn law_reader_trace_is_a_run(trace: ReaderTrace, count: nat)
    requires
        trace.possible(),
        count <= trace.events.len(),
    ensures
        reader_run_possible(reader_start(), trace.inputs(count)),
        reader_run(reader_start(), trace.inputs(count)) == (ReaderState {
            paused: trace.views[count as int].read_paused,
            action: trace.due(count),
        }),
        trace.views[count as int].attempts() == trace.views[0].attempts() + trace.attempts(count),
        trace.views[count as int].channel() == trace.views[0].channel(),
    decreases count,
{
    if count == 0 {
        assert(trace.views[0].attempts() =~= trace.views[0].attempts() + trace.attempts(0));
    } else {
        let i = count - 1;
        law_reader_trace_is_a_run(trace, i as nat);
        lemma_trace_step(trace, i);
        assert(trace.event_follows(i));
        assert(trace.inputs(count).drop_last() =~= trace.inputs(i as nat));
        assert(trace.inputs(count).last() == trace.input(i));
        assert(trace.views[count as int].attempts() =~= trace.views[0].attempts() + trace.attempts(
            count,
        ));
    }
}

/// Whenever a reading thread is to read or to hand bytes to the peer manager, reads are not
/// paused.
pub proof fn law_thread_reads_only_while_not_paused(trace: ReaderTrace, count: nat)
    requires
        trace.possible(),
        count <= trace.events.len(),
    ensures
        trace.due(count) is Read || trace.due(count) is ReadEvent
            ==> !trace.views[count as int].read_paused,
{
    law_reader_trace_is_a_run(trace, count);
    law_reads_only_while_not_paused(trace.inputs(count));
}

/// Reads pause once the peer manager asks for it, and a turn leaves them paused or not as the
/// last command that it took says.
pub proof fn law_thread_pauses_and_resumes(trace: ReaderTrace, i: int)
    requires
        trace.possible(),
        0 <= i < trace.events.len(),
    ensures
        trace.events[i] == ReaderEvent::Report(ReaderReport::EventHandled { pause_read: true })
            ==> trace.views[i + 1].read_paused,
        trace.events[i] is Turn ==> (trace.views[i + 1].attempts().last().found matches
            Signal::Received(cmd) ==> {
            &&& trace.views[i + 1].read_paused <==> cmd is PauseRead
            &&& trace.actions[i] is NextTurn || trace.actions[i] is Read
            &&& cmd is PauseRead ==> trace.actions[i] is NextTurn
        }),
{
    lemma_trace_step(trace, i);
}

/// Once reads are paused, by the peer manager or by a command, the reading thread neither reads
/// nor hands anything to the peer manager until the command to resume is taken from the channel:
/// if none of the attempts made between `from` and `to` calls found it, reads are still paused
/// and every call in between decided to take another turn or to shut down. Each of those turns
/// waited in the channel unless it was disconnected, and another turn follows only if a command
/// was received, so that the thread does not spin.
pub proof fn law_thread_stays_paused(trace: ReaderTrace, from: nat, to: nat)
    requires
        trace.possible(),
        from <= to <= trace.events.len(),
        trace.views[from as int].read_paused,
        forall|j: int|
            trace.views[from as int].attempts().len() <= j < trace.views[to as int].attempts().len()
                ==> (#[trigger] trace.views[to as int].attempts()[j]).found != Signal::Received(
                ReaderCommand::ResumeRead,
            ),
    ensures
        trace.views[from as int].attempts().is_prefix_of(trace.views[to as int].attempts()),
        trace.views[to as int].read_paused,
        forall|i: int|
            from <= i < to ==> {
                &&& (#[trigger] trace.actions[i]) is NextTurn || trace.actions[i] is Shutdown
                &&& trace.poll(i) is Disconnected || trace.views[i + 1].attempts().last().block
                &&& trace.actions[i] is NextTurn
                    ==> trace.views[i + 1].attempts().last().found is Received
            },
    decreases to - from,
{
    let first = trace.views[from as int].attempts();
    let last = trace.views[to as int].attempts();
    if from == to {
        assert(first.is_prefix_of(last));
    } else {
        let k = to - 1;
        let middle = trace.views[k].attempts();
        lemma_trace_step(trace, k);
        assert(middle =~= last.subrange(0, middle.len() as int));
        assert forall|j: int| first.len() <= j < middle.len() implies (#[trigger] middle[j]).found
            != Signal::Received(ReaderCommand::ResumeRead) by {
            assert(middle[j] == last[j]);
        }
        law_thread_stays_paused(trace, from, k as nat);
        law_thread_reads_only_while_not_paused(trace, k as nat);
        assert(trace.event_follows(k));
        assert(trace.events[k] is Turn);
        assert(last[middle.len() as int].found == trace.poll(k));
        if turn_waits(trace.views[k].read_paused, trace.poll(k)) {
            assert(last[middle.len() as int + 1].found == trace.wait(k));
        }
        assert(first =~= last.subrange(0, first.len() as int));
    }
}

/// A turn reads once it finds the command to resume, or finds no command while reads are not
/// paused. So the thread reads again once the command to resume is the last it took and the
/// channel is empty: if a turn ends with that command and does not read, the next turn that finds
/// the channel empty does.
pub proof fn law_thread_reads_again(trace: ReaderTrace, i: int)
    requires
        trace.possible(),
        0 <= i < trace.events.len(),
        trace.events[i] is Turn,
    ensures
        !trace.views[i].read_paused && trace.poll(i) is Empty ==> trace.actions[i] is Read,
        trace.poll(i) == Signal::Received(ReaderCommand::ResumeRead) ==> trace.actions[i] is Read,
        trace.views[i + 1].attempts().last().found == Signal::Received(ReaderCommand::ResumeRead)
            ==> {
            ||| trace.actions[i] is Read
            ||| i + 1 < trace.events.len() ==> {
                &&& trace.events[i + 1] is Turn
                &&& trace.poll(i + 1) is Empty ==> trace.actions[i + 1] is Read
            }
        },
{
    lemma_trace_step(trace, i);
    if i + 1 < trace.events.len() {
        lemma_trace_step(trace, i + 1);
        assert(trace.event_follows(i + 1));
    }
}

/// Over the work of a reading thread, events are processed exactly after a read event that the
/// peer manager took: once, without a command being taken in between, and before the turn that
/// comes next. A read event that it rejected ends the thread instead.
pub proof fn law_thread_processes_events(trace: ReaderTrace, i: int)
    requires
        trace.possible(),
        0 <= i < trace.events.len(),
    ensures
        trace.actions[i] is ProcessEvents <==> trace.events[i] matches ReaderEvent::Report(
            ReaderReport::EventHandled { pause_read: _ },
        ),
        trace.actions[i] is ProcessEvents ==> {
            &&& trace.views[i + 1].attempts() == trace.views[i].attempts()
            &&& i > 0 && trace.actions[i - 1] is ReadEvent
            &&& i + 1 < trace.events.len() ==> trace.events[i + 1] is Turn
        },
        trace.events[i] == ReaderEvent::Report(ReaderReport::EventRejected) ==> {
            &&& trace.actions[i] is Shutdown
            &&& i + 1 == trace.events.len()
        },
{
    lemma_trace_step(trace, i);
    assert(trace.event_follows(i));
    if i + 1 < trace.events.len() {
        assert(trace.event_follows(i + 1));
    }
}

/// The steps of a trace are the calls of [`Reader::next`]. It can be called with every event, and
/// each call is such a step.
pub proof fn law_reader_calls_are_steps()
    ensures
        forall|reader: &mut Reader, event: ReaderEvent| #[trigger]
            call_requires(Reader::next, (reader, event)),
        forall|reader: &mut Reader, event: ReaderEvent, action: ReaderAction| #[trigger]
            call_ensures(Reader::next, (reader, event), action) ==> reader_stepped(
                reader@,
                event,
                action,
                final(reader)@,
            ),
{
}

/// The peer manager is handed exactly the bytes that the socket gave: a read of some bytes, however
/// many, is followed by a read event of as many, and there is no other read event. A read of none
/// ends the thread.
pub proof fn law_all_bytes_read_are_handed_on(trace: ReaderTrace, i: int, len: usize)
    requires
        trace.possible(),
        0 <= i < trace.events.len(),
    ensures
        len > 0 ==> (trace.events[i] == ReaderEvent::Report(ReaderReport::BytesRead(len))
            <==> trace.actions[i] == (ReaderAction::ReadEvent { len })),
        trace.events[i] == ReaderEvent::Report(ReaderReport::BytesRead(0))
            ==> trace.actions[i] is Shutdown,
        trace.actions[i] != (ReaderAction::ReadEvent { len: 0 }),
        trace.actions[i] is ReadEvent && i + 1 < trace.events.len() ==> {
            ||| trace.events[i + 1] matches ReaderEvent::Report(
                ReaderReport::EventHandled { pause_read: _ },
            )
            ||| trace.events[i + 1] == ReaderEvent::Report(ReaderReport::EventRejected)
        },
{
    lemma_trace_step(trace, i);
    assert(trace.event_follows(i));
    if i + 1 < trace.events.len() {
        assert(trace.event_follows(i + 1));
    }
}

/// A report takes nothing from the channel, and changes whether reads are paused only if the peer
/// manager took the bytes and asks for a pause.
pub proof fn law_reports_leave_the_channel_alone(trace: ReaderTrace, i: int)
    requires
        trace.possible(),
        0 <= i < trace.events.len(),
        trace.events[i] !is Turn,
    ensures
        trace.views[i + 1].rx == trace.views[i].rx,
        trace.views[i + 1].read_paused <==> trace.views[i].read_paused || trace.events[i]
            == ReaderEvent::Report(ReaderReport::EventHandled { pause_read: true }),
        trace.events[i] == ReaderEvent::Report(ReaderReport::ReadFailed)
            ==> trace.actions[i] is Shutdown,
        trace.actions[i] !is NextTurn,
        trace.actions[i] !is Read,
{
    lemma_trace_step(trace, i);
    assert(trace.event_follows(i));
}

/// What a turn does, by what it finds in the channel. It looks once without blocking. If the
/// channel is disconnected, it ends the thread. If reads are not paused then, it reads and does not
/// look again. If they are, it waits for a command, once; without one to come it ends the thread,
/// and otherwise the next turn follows, with reads paused or not as the command says.
pub proof fn law_turn_of_a_reading_thread(trace: ReaderTrace, i: int)
    requires
        trace.possible(),
        0 <= i < trace.events.len(),
        trace.events[i] is Turn,
    ensures
        ({
            let known = trace.views[i].attempts();
            let all = trace.views[i + 1].attempts();
            let first = all[known.len() as int];
            let paused = first.found == Signal::Received(ReaderCommand::PauseRead)
                || first.found is Empty && trace.views[i].read_paused;
            &&& known.is_prefix_of(all)
            &&& !first.block
            &&& first.found is Disconnected || !paused ==> all.len() == known.len() + 1
            &&& first.found is Disconnected ==> trace.actions[i] is Shutdown
                && trace.views[i + 1].read_paused == trace.views[i].read_paused
            &&& first.found !is Disconnected && !paused ==> trace.actions[i] is Read
                && !trace.views[i + 1].read_paused
            &&& paused ==> {
                &&& all.len() == known.len() + 2
                &&& all.last().block
                &&& match all.last().found {
                    Signal::Received(cmd) => trace.actions[i] is NextTurn && (trace.views[i
                        + 1].read_paused <==> cmd is PauseRead),
                    Signal::Disconnected => trace.actions[i] is Shutdown && trace.views[i
                        + 1].read_paused,
                    Signal::Empty => false,
                }
            }
        }),
{
    lemma_trace_step(trace, i);
    let known = trace.views[i].attempts();
    assert(trace.views[i + 1].attempts().subrange(0, known.len() as int) =~= known);
}

/// A new reader is not paused, and receives through the end that it was made with.
pub proof fn law_new_reader_is_not_paused(
    rx: Receiver<ReaderCommand>,
    reader: Reader,
    paused: bool,
)
    requires
        call_ensures(Reader::new, (rx,), reader),
        call_ensures(Reader::read_paused, (&reader,), paused),
    ensures
        !paused,
        !reader@.read_paused,
        reader@.rx == rx,
{
}

/// Handling a command makes one attempt to receive it, blocking as asked, and takes in what was
/// found: reads pause or resume as the command says and stay as they are without one, and only a
/// disconnected channel asks for a shutdown.
pub proof fn law_commands_are_handled()
    ensures
        forall|reader: &mut Reader, block: bool, shutdown: bool| #[trigger]
            call_ensures(Reader::handle_command, (reader, block), shutdown) ==> {
                let all = final(reader)@.attempts();
                &&& all.len() == reader@.attempts().len() + 1
                &&& all.drop_last() == reader@.attempts()
                &&& all.last().block == block
                &&& final(reader)@.channel() == reader@.channel()
                &&& match all.last().found {
                    Signal::Received(cmd) => !shutdown && (final(reader)@.read_paused
                        <==> cmd is PauseRead),
                    Signal::Empty => !block && !shutdown && final(reader)@.read_paused
                        == reader@.read_paused,
                    Signal::Disconnected => shutdown && final(reader)@.read_paused
                        == reader@.read_paused,
                }
            },
        forall|reader: &mut Reader, signal: Signal<ReaderCommand>, shutdown: bool| #[trigger]
            call_ensures(Reader::apply, (reader, signal), shutdown) ==> {
                &&& final(reader)@.rx == reader@.rx
                &&& match signal {
                    Signal::Received(cmd) => !shutdown && (final(reader)@.read_paused
                        <==> cmd is PauseRead),
                    Signal::Empty => !shutdown && final(reader)@.read_paused
                        == reader@.read_paused,
                    Signal::Disconnected => shutdown && final(reader)@.read_paused
                        == reader@.read_paused,
                }
            },
        forall|reader: &Reader, paused: bool| #[trigger]
            call_ensures(Reader::read_paused, (reader,), paused) ==> paused == reader@.read_paused,
{
    assert forall|reader: &mut Reader, block: bool, shutdown: bool| #[trigger]
        call_ensures(
            Reader::handle_command,
            (reader, block),
            shutdown,
        ) implies final(reader)@.attempts().drop_last() == reader@.attempts() by {
        assert(final(reader)@.attempts().drop_last() =~= reader@.attempts());
    }
}

} // verus!
