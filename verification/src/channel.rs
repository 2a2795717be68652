//! The crossbeam channels between the descriptors of a connection and its two threads: all that
//! is taken on trust of them.
//!
//! A channel is shared with other threads, so what a call on it returns cannot be foretold. What
//! is pinned down is what went into each call and how it was answered. To that end, every handle
//! has a history: the calls that were made through it, each with its answer. The history of a
//! clone begins with that of the handle it was cloned from, as it stood at that time; from then
//! on the two run apart. A handle does not store its history; it is what happened to it. The
//! calls take their handle by `&mut`, though crossbeam does not ask for that, so that their
//! contracts can tell the history before the call from that after it.

use crate::commands::{ReaderCommand, WriterCommand};
use crossbeam::channel::{Receiver, RecvError, Sender, TryRecvError, TrySendError};
use vstd::prelude::*;

verus! {

/// `crossbeam::channel::Sender`, the sending end of a channel; opaque.
#[verifier::external_type_specification]
#[verifier::external_body]
#[verifier::reject_recursive_types(T)]
pub struct ExSender<T>(Sender<T>);

/// `crossbeam::channel::Receiver`, the receiving end of a channel; opaque.
#[verifier::external_type_specification]
#[verifier::external_body]
#[verifier::reject_recursive_types(T)]
pub struct ExReceiver<T>(Receiver<T>);

/// How a channel answered the offer of a command.
#[derive(Debug, Clone, Copy, PartialEq, Eq, Structural)]
pub enum Outcome {
    /// The channel took the command over.
    Accepted,
    /// The channel held as many commands as it can.
    Full,
    /// The receiving end is gone.
    Disconnected,
}

/// What an attempt to receive a command found.
pub enum Signal<T> {
    /// The next command of the channel.
    Received(T),
    /// No command is waiting, but one can still arrive.
    Empty,
    /// No command is waiting, and every sending end is gone.
    Disconnected,
}

/// One attempt to receive a command.
pub struct Attempt<T> {
    /// Whether the thread was to block until there was a command or none could come.
    pub block: bool,
    /// What was found.
    pub found: Signal<T>,
}

/// The channel that a handle belongs to.
pub struct ChannelView {
    /// Which channel it is.
    pub id: int,
    /// How many commands it holds at most, as `crossbeam::channel::Sender::capacity` reports it;
    /// `None` where there is no limit.
    pub capacity: Option<usize>,
}

/// The channel that a sending end for reader commands belongs to.
pub uninterp spec fn reader_tx_channel(tx: Sender<ReaderCommand>) -> ChannelView;

/// The channel that a receiving end for reader commands belongs to.
pub uninterp spec fn reader_rx_channel(rx: Receiver<ReaderCommand>) -> ChannelView;

/// The channel that a sending end for writer commands belongs to.
pub uninterp spec fn writer_tx_channel(tx: Sender<WriterCommand>) -> ChannelView;

/// The channel that a receiving end for writer commands belongs to.
pub uninterp spec fn writer_rx_channel(rx: Receiver<WriterCommand>) -> ChannelView;

/// The commands that were offered to the reader through `tx`, and before it was cloned through
/// the handles that it stems from, oldest first, with the answers.
pub uninterp spec fn reader_offers(tx: Sender<ReaderCommand>) -> Seq<(ReaderCommand, Outcome)>;

/// The payloads that were offered to the writer through `tx`, and before it was cloned through
/// the handles that it stems from, oldest first, with the answers.
pub uninterp spec fn writer_offers(tx: Sender<WriterCommand>) -> Seq<(Seq<u8>, Outcome)>;

/// The attempts to receive a command through `rx`, oldest first.
pub uninterp spec fn reader_attempts(rx: Receiver<ReaderCommand>) -> Seq<Attempt<ReaderCommand>>;

/// The attempts to receive a command through `rx`, oldest first, each command by its payload.
pub uninterp spec fn writer_attempts(rx: Receiver<WriterCommand>) -> Seq<Attempt<Seq<u8>>>;

/// A signal of the writer's channel, with the command by its payload.
pub open spec fn payload_signal(signal: Signal<WriterCommand>) -> Signal<Seq<u8>> {
    match signal {
        Signal::Received(cmd) => Signal::Received(cmd.payload()),
        Signal::Empty => Signal::Empty,
        Signal::Disconnected => Signal::Disconnected,
    }
}

/// Calls `crossbeam::channel::unbounded`: it makes a channel without a limit and returns its two
/// ends, through which no call was made yet.
#[verifier::external_body]
pub(crate) fn unbounded_reader_channel() -> (ends: (Sender<ReaderCommand>, Receiver<ReaderCommand>))
    ensures
        reader_tx_channel(ends.0) == reader_rx_channel(ends.1),
        reader_tx_channel(ends.0).capacity == None::<usize>,
        reader_offers(ends.0) == Seq::<(ReaderCommand, Outcome)>::empty(),
        reader_attempts(ends.1) == Seq::<Attempt<ReaderCommand>>::empty(),
{
    crossbeam::channel::unbounded()
}

/// Calls `crossbeam::channel::bounded`: it makes a channel that holds at most `cap` commands and
/// returns its two ends, through which no call was made yet. The call panics where `cap` is too
/// large for the slots to be allocated, hence the bound.
#[verifier::external_body]
pub(crate) fn bounded_writer_channel(cap: usize) -> (ends: (
    Sender<WriterCommand>,
    Receiver<WriterCommand>,
))
    requires
        cap <= 1024,
    ensures
        writer_tx_channel(ends.0) == writer_rx_channel(ends.1),
        writer_tx_channel(ends.0).capacity == Some(cap),
        writer_offers(ends.0) == Seq::<(Seq<u8>, Outcome)>::empty(),
        writer_attempts(ends.1) == Seq::<Attempt<Seq<u8>>>::empty(),
{
    crossbeam::channel::bounded(cap)
}

/// Calls `Sender::clone`: a handle holds nothing but a reference to its channel, and the clone
/// holds the same reference, so the two are equal. The clone takes the history of the original
/// over; from then on each has its own.
#[verifier::external_body]
pub(crate) fn clone_sender<T>(tx: &Sender<T>) -> (res: Sender<T>)
    ensures
        res == *tx,
{
    tx.clone()
}

/// Calls `Sender::try_send`, which offers the command to the channel without blocking. The
/// answer rests on the other threads that use the channel, except that a channel without a limit
/// is never full; it enters the history together with the command. The handle stays with its
/// channel.
#[verifier::external_body]
pub(crate) fn try_send_to_reader(tx: &mut Sender<ReaderCommand>, cmd: ReaderCommand) -> (outcome:
    Outcome)
    ensures
        reader_offers(*final(tx)) == reader_offers(*old(tx)).push((cmd, outcome)),
        reader_tx_channel(*final(tx)) == reader_tx_channel(*old(tx)),
        reader_tx_channel(*old(tx)).capacity is None ==> outcome !is Full,
{
    match tx.try_send(cmd) {
        Ok(()) => Outcome::Accepted,
        Err(TrySendError::Full(_)) => Outcome::Full,
        Err(TrySendError::Disconnected(_)) => Outcome::Disconnected,
    }
}

/// Calls `Sender::try_send`, which offers the command to the channel without blocking. The
/// answer rests on the other threads that use the channel, except that a channel without a limit
/// is never full; it enters the history together with the payload of the command. The handle
/// stays with its channel.
#[verifier::external_body]
pub(crate) fn try_send_to_writer(tx: &mut Sender<WriterCommand>, cmd: WriterCommand) -> (outcome:
    Outcome)
    ensures
        writer_offers(*final(tx)) == writer_offers(*old(tx)).push((cmd.payload(), outcome)),
        writer_tx_channel(*final(tx)) == writer_tx_channel(*old(tx)),
        writer_tx_channel(*old(tx)).capacity is None ==> outcome !is Full,
{
    match tx.try_send(cmd) {
        Ok(()) => Outcome::Accepted,
        Err(TrySendError::Full(_)) => Outcome::Full,
        Err(TrySendError::Disconnected(_)) => Outcome::Disconnected,
    }
}

/// Calls `Receiver::try_recv`, which takes the next command off the channel if there is one,
/// without blocking. What it finds rests on the other threads that use the channel; it enters
/// the history. The handle stays with its channel.
#[verifier::external_body]
pub(crate) fn try_recv_by_reader(rx: &mut Receiver<ReaderCommand>) -> (signal: Signal<
    ReaderCommand,
>)
    ensures
        reader_attempts(*final(rx)) == reader_attempts(*old(rx)).push(
            Attempt { block: false, found: signal },
        ),
        reader_rx_channel(*final(rx)) == reader_rx_channel(*old(rx)),
{
    match rx.try_recv() {
        Ok(cmd) => Signal::Received(cmd),
        Err(TryRecvError::Empty) => Signal::Empty,
        Err(TryRecvError::Disconnected) => Signal::Disconnected,
    }
}

/// Calls `Receiver::recv`, which takes the next command off the channel and blocks the thread
/// until there is one or the channel is both empty and disconnected. Which of the two it is
/// rests on the other threads that use the channel; it enters the history. An empty channel is
/// never reported. The handle stays with its channel.
#[verifier::external_body]
pub(crate) fn recv_by_reader(rx: &mut Receiver<ReaderCommand>) -> (signal: Signal<ReaderCommand>)
    ensures
        signal !is Empty,
        reader_attempts(*final(rx)) == reader_attempts(*old(rx)).push(
            Attempt { block: true, found: signal },
        ),
        reader_rx_channel(*final(rx)) == reader_rx_channel(*old(rx)),
{
    match rx.recv() {
        Ok(cmd) => Signal::Received(cmd),
        Err(RecvError) => Signal::Disconnected,
    }
}

/// Calls `Receiver::recv`, which takes the next command off the channel and blocks the thread
/// until there is one or the channel is both empty and disconnected. Which of the two it is
/// rests on the other threads that use the channel; it enters the history. An empty channel is
/// never reported. The handle stays with its channel.
#[verifier::external_body]
pub(crate) fn recv_by_writer(rx: &mut Receiver<WriterCommand>) -> (signal: Signal<WriterCommand>)
    ensures
        signal !is Empty,
        writer_attempts(*final(rx)) == writer_attempts(*old(rx)).push(
            Attempt { block: true, found: payload_signal(signal) },
        ),
        writer_rx_channel(*final(rx)) == writer_rx_channel(*old(rx)),
{
    match rx.recv() {
        Ok(cmd) => Signal::Received(cmd),
        Err(RecvError) => Signal::Disconnected,
    }
}

} // verus!
