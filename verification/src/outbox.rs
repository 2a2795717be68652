//! The two sending ends that a descriptor holds, used one call at a time.

use crate::channel::{clone_sender, try_send_to_reader, try_send_to_writer, Outcome};
use crate::channel::{reader_offers, reader_tx_channel, writer_offers, writer_tx_channel};
use crate::commands::{ReaderCommand, WriterCommand};
use crossbeam::channel::Sender;
use vstd::prelude::*;

verus! {

/// One command that was offered to a channel, with the answer.
pub enum Dispatch {
    /// A command offered to the reader.
    ToReader { cmd: ReaderCommand, outcome: Outcome },
    /// A payload offered to the writer.
    ToWriter { payload: Seq<u8>, outcome: Outcome },
}

/// What the outbox of a descriptor stands for.
pub struct OutboxView {
    /// The sending end of the reader's channel.
    pub reader_cmd_tx: Sender<ReaderCommand>,
    /// The sending end of the writer's channel.
    pub writer_cmd_tx: Sender<WriterCommand>,
    /// Everything offered to the two channels, oldest first: their two histories in one.
    pub log: Seq<Dispatch>,
}

/// The part of `trace` that the reader's channel saw.
pub open spec fn to_reader(trace: Seq<Dispatch>) -> Seq<(ReaderCommand, Outcome)>
    decreases trace.len(),
{
    if trace.len() == 0 {
        seq![]
    } else {
        let earlier = to_reader(trace.drop_last());
        match trace.last() {
            Dispatch::ToReader { cmd, outcome } => earlier.push((cmd, outcome)),
            Dispatch::ToWriter { payload: _, outcome: _ } => earlier,
        }
    }
}

/// The part of `trace` that the writer's channel saw.
pub open spec fn to_writer(trace: Seq<Dispatch>) -> Seq<(Seq<u8>, Outcome)>
    decreases trace.len(),
{
    if trace.len() == 0 {
        seq![]
    } else {
        let earlier = to_writer(trace.drop_last());
        match trace.last() {
            Dispatch::ToReader { cmd: _, outcome: _ } => earlier,
            Dispatch::ToWriter { payload, outcome } => earlier.push((payload, outcome)),
        }
    }
}

impl OutboxView {
    /// Whether this is the outbox `before` after `trace` was offered through it, and nothing
    /// else: it leads to the same channels, and the histories grew by `trace`.
    pub open spec fn extends(self, before: OutboxView, trace: Seq<Dispatch>) -> bool {
        &&& reader_tx_channel(self.reader_cmd_tx) == reader_tx_channel(before.reader_cmd_tx)
        &&& writer_tx_channel(self.writer_cmd_tx) == writer_tx_channel(before.writer_cmd_tx)
        &&& reader_offers(self.reader_cmd_tx) == reader_offers(before.reader_cmd_tx) + to_reader(
            trace,
        )
        &&& writer_offers(self.writer_cmd_tx) == writer_offers(before.writer_cmd_tx) + to_writer(
            trace,
        )
        &&& self.log == before.log + trace
    }
}

/// What it takes for one command to have been offered.
proof fn lemma_extends_once(before: OutboxView, after: OutboxView, dispatch: Dispatch)
    requires
        reader_tx_channel(after.reader_cmd_tx) == reader_tx_channel(before.reader_cmd_tx),
        writer_tx_channel(after.writer_cmd_tx) == writer_tx_channel(before.writer_cmd_tx),
        reader_offers(after.reader_cmd_tx) == match dispatch {
            Dispatch::ToReader { cmd, outcome } => reader_offers(before.reader_cmd_tx).push(
                (cmd, outcome),
            ),
            _ => reader_offers(before.reader_cmd_tx),
        },
        writer_offers(after.writer_cmd_tx) == match dispatch {
            Dispatch::ToWriter { payload, outcome } => writer_offers(before.writer_cmd_tx).push(
                (payload, outcome),
            ),
            _ => writer_offers(before.writer_cmd_tx),
        },
        after.log == before.log.push(dispatch),
    ensures
        after.extends(before, seq![dispatch]),
{
    reveal_with_fuel(to_reader, 2);
    reveal_with_fuel(to_writer, 2);
    assert(seq![dispatch].drop_last() =~= Seq::<Dispatch>::empty());
    assert(after.log =~= before.log + seq![dispatch]);
    assert(reader_offers(after.reader_cmd_tx) =~= reader_offers(before.reader_cmd_tx) + to_reader(
        seq![dispatch],
    ));
    assert(writer_offers(after.writer_cmd_tx) =~= writer_offers(before.writer_cmd_tx) + to_writer(
        seq![dispatch],
    ));
}

/// Offering one more command after `trace`.
pub(crate) proof fn lemma_extends_push(
    before: OutboxView,
    middle: OutboxView,
    after: OutboxView,
    trace: Seq<Dispatch>,
    dispatch: Dispatch,
)
    requires
        middle.extends(before, trace),
        after.extends(middle, seq![dispatch]),
    ensures
        after.extends(before, trace.push(dispatch)),
{
    reveal_with_fuel(to_reader, 2);
    reveal_with_fuel(to_writer, 2);
    assert(trace.push(dispatch).drop_last() =~= trace);
    assert(seq![dispatch].drop_last() =~= Seq::<Dispatch>::empty());
    assert(after.log =~= before.log + trace.push(dispatch));
    assert(reader_offers(after.reader_cmd_tx) =~= reader_offers(before.reader_cmd_tx) + to_reader(
        trace.push(dispatch),
    ));
    assert(writer_offers(after.writer_cmd_tx) =~= writer_offers(before.writer_cmd_tx) + to_writer(
        trace.push(dispatch),
    ));
}

/// The sending ends that a descriptor holds.
pub(crate) struct Outbox {
    reader_cmd_tx: Sender<ReaderCommand>,
    writer_cmd_tx: Sender<WriterCommand>,
    log: Ghost<Seq<Dispatch>>,
}

impl Outbox {
    pub(crate) closed spec fn view(&self) -> OutboxView {
        OutboxView {
            reader_cmd_tx: self.reader_cmd_tx,
            writer_cmd_tx: self.writer_cmd_tx,
            log: self.log@,
        }
    }

    /// The outbox before anything has been offered through it.
    pub(crate) fn new(
        reader_cmd_tx: Sender<ReaderCommand>,
        writer_cmd_tx: Sender<WriterCommand>,
    ) -> (outbox: Self)
        ensures
            outbox@ == (OutboxView { reader_cmd_tx, writer_cmd_tx, log: Seq::empty() }),
    {
        Outbox { reader_cmd_tx, writer_cmd_tx, log: Ghost(Seq::empty()) }
    }

    /// An outbox for the same two channels, with the same past.
    pub(crate) fn duplicate(&self) -> (outbox: Self)
        ensures
            outbox@ == self@,
    {
        Outbox {
            reader_cmd_tx: clone_sender(&self.reader_cmd_tx),
            writer_cmd_tx: clone_sender(&self.writer_cmd_tx),
            log: Ghost(self.log@),
        }
    }

    /// Offers a command to the reader, without blocking.
    pub(crate) fn offer_to_reader(&mut self, cmd: ReaderCommand) -> (outcome: Outcome)
        ensures
            final(self)@.extends(old(self)@, seq![Dispatch::ToReader { cmd, outcome }]),
            reader_tx_channel(old(self)@.reader_cmd_tx).capacity is None ==> outcome !is Full,
    {
        let outcome = try_send_to_reader(&mut self.reader_cmd_tx, cmd);
        proof {
            let dispatch = Dispatch::ToReader { cmd, outcome };
            self.log@ = self.log@.push(dispatch);
            lemma_extends_once(old(self)@, self@, dispatch);
        }
        outcome
    }

    /// Offers a command to the writer, without blocking.
    pub(crate) fn offer_to_writer(&mut self, cmd: WriterCommand) -> (outcome: Outcome)
        ensures
            final(self)@.extends(
                old(self)@,
                seq![Dispatch::ToWriter { payload: cmd.payload(), outcome }],
            ),
            writer_tx_channel(old(self)@.writer_cmd_tx).capacity is None ==> outcome !is Full,
    {
        let ghost payload = cmd.payload();
        let outcome = try_send_to_writer(&mut self.writer_cmd_tx, cmd);
        proof {
            let dispatch = Dispatch::ToWriter { payload, outcome };
            self.log@ = self.log@.push(dispatch);
            lemma_extends_once(old(self)@, self@, dispatch);
        }
        outcome
    }
}

} // verus!
