//! Setting a connection up: its identity, its channels, and the parts that share them.

use crate::address::{IpOctets, NetAddress};
use crate::channel::{bounded_writer_channel, clone_sender, unbounded_reader_channel};
use crate::channel::{reader_offers, reader_tx_channel, writer_offers, writer_tx_channel};
use crate::channel::{Attempt, Outcome};
use crate::commands::{ReaderCommand, WriterCommand};
use crate::descriptor::{DescriptorView, SyncSocketDescriptor};
use crate::outbox::{Dispatch, OutboxView};
use crate::reader::{Reader, ReaderView};
use crate::writer::{Writer, WriterView};
use crossbeam::channel::{Receiver, Sender};
use vstd::prelude::*;
use vstd::std_specs::cmp::PartialEqSpec;

verus! {

/// How many commands the channel to a writer holds. Only one command can be in it at a time, so
/// that a full channel tells a sender that the previous write is still being processed.
pub const WRITER_CHANNEL_CAPACITY: usize = 1;

/// The identity that follows `id`: identities are counted up, and start over once all 2^64 are
/// used up.
pub open spec fn id_after(id: int) -> int {
    (id + 1) % 0x1_0000_0000_0000_0000
}

/// The identity of the connection that is made after `count` others.
pub open spec fn connection_id(count: nat) -> int
    decreases count,
{
    if count == 0 {
        0
    } else {
        id_after(connection_id((count - 1) as nat))
    }
}

proof fn lemma_connection_id(count: nat)
    ensures
        connection_id(count) == count % 0x1_0000_0000_0000_0000,
    decreases count,
{
    if count > 0 {
        lemma_connection_id((count - 1) as nat);
    }
}

/// Hands out the identities of connections. Its view is the number of identities that it has
/// handed out.
pub struct IdCounter {
    next: u64,
    drawn: Ghost<nat>,
}

impl View for IdCounter {
    type V = nat;

    closed spec fn view(&self) -> nat {
        self.drawn@
    }
}

impl IdCounter {
    /// The next identity is the one that is due after those handed out.
    pub closed spec fn wf(self) -> bool {
        self.next == connection_id(self.drawn@)
    }

    /// A counter that has not handed out any identity.
    pub fn new() -> (ids: Self)
        ensures
            ids.wf(),
            ids@ == 0,
    {
        IdCounter { next: 0, drawn: Ghost(0) }
    }

    /// Hands out the next identity.
    pub fn draw(&mut self) -> (id: u64)
        requires
            old(self).wf(),
        ensures
            final(self).wf(),
            final(self)@ == old(self)@ + 1,
            id == connection_id(old(self)@),
    {
        let id: u64 = self.next;
        self.next = id.wrapping_add(1);
        proof {
            self.drawn@ = self.drawn@ + 1;
        }
        id
    }
}

/// The first identity is 0, and each is one more than that before it, as long as fewer than 2^64
/// are handed out.
pub proof fn law_connection_ids_count_up(count: nat)
    requires
        count + 1 < 0x1_0000_0000_0000_0000,
    ensures
        connection_id(0) == 0,
        connection_id(count + 1) == connection_id(count) + 1,
{
    lemma_connection_id(count);
    lemma_connection_id(count + 1);
}

/// Two connections that are fewer than 2^64 apart have different identities.
pub proof fn law_connection_ids_differ(first: nat, second: nat)
    requires
        first < second < first + 0x1_0000_0000_0000_0000,
    ensures
        connection_id(first) != connection_id(second),
{
    lemma_connection_id(first);
    lemma_connection_id(second);
}

/// Represents a TCP connection to a peer.
#[derive(Debug, Clone, Copy, PartialEq, Eq, Structural)]
pub struct Connection {
    pub id: u64,
    /// Whether reads are paused.
    pub read_paused: bool,
}

/// The parts of a connection that its two threads run with.
pub struct ConnectionParts<D> {
    /// The connection itself.
    pub connection: Connection,
    /// For the reading thread.
    pub reader: Reader,
    /// The descriptor under which the reading thread reports to the peer manager.
    pub reader_descriptor: SyncSocketDescriptor<D>,
    /// For the writing thread.
    pub writer: Writer,
}

impl Connection {
    /// A new connection over the given channels, with the next identity of `ids`, reads not
    /// paused and nothing to write.
    ///
    /// Reads and writes block, so a reader and a writer are made for two threads of their own.
    /// The reader is at the receiving end of one channel, the writer at that of the other.
    pub fn init<D>(
        ids: &mut IdCounter,
        tcp_disconnector: D,
        reader_cmd_tx: Sender<ReaderCommand>,
        reader_cmd_rx: Receiver<ReaderCommand>,
        writer_cmd_tx: Sender<WriterCommand>,
        writer_cmd_rx: Receiver<WriterCommand>,
    ) -> (parts: ConnectionParts<D>)
        requires
            old(ids).wf(),
        ensures
            final(ids).wf(),
            final(ids)@ == old(ids)@ + 1,
            parts.connection.id == connection_id(old(ids)@),
            !parts.connection.read_paused,
            parts.reader@ == (ReaderView { rx: reader_cmd_rx, read_paused: false }),
            parts.reader_descriptor@ == (DescriptorView {
                id: parts.connection.id,
                tcp_disconnector,
                outbox: OutboxView { reader_cmd_tx, writer_cmd_tx, log: Seq::empty() },
            }),
            parts.writer.wf(),
            parts.writer@ == (WriterView { rx: writer_cmd_rx, pending: Seq::empty() }),
    {
        let id: u64 = ids.draw();
        ConnectionParts {
            connection: Connection { id, read_paused: false },
            reader: Reader::new(reader_cmd_rx),
            reader_descriptor: SyncSocketDescriptor::new(
                id,
                tcp_disconnector,
                reader_cmd_tx,
                writer_cmd_tx,
            ),
            writer: Writer::new(writer_cmd_rx),
        }
    }
}

/// A freshly accepted connection, ready to be run and to be announced to the peer manager.
pub struct Inbound<D> {
    /// What the two threads of the connection run with.
    pub parts: ConnectionParts<D>,
    /// The descriptor to announce the connection with.
    pub socket_descriptor: SyncSocketDescriptor<D>,
    /// The address to announce the connection with.
    pub net_address: NetAddress,
}

/// Whether `outbox` leads to the reader and the writer in `parts`, over a channel without a limit
/// and a bounded one, and nothing was offered through it yet.
pub open spec fn freshly_connected<D>(outbox: OutboxView, parts: ConnectionParts<D>) -> bool {
    &&& reader_tx_channel(outbox.reader_cmd_tx) == parts.reader@.channel()
    &&& parts.reader@.channel().capacity == None::<usize>
    &&& writer_tx_channel(outbox.writer_cmd_tx) == parts.writer@.channel()
    &&& parts.writer@.channel().capacity == Some(WRITER_CHANNEL_CAPACITY)
    &&& reader_offers(outbox.reader_cmd_tx) == Seq::<(ReaderCommand, Outcome)>::empty()
    &&& writer_offers(outbox.writer_cmd_tx) == Seq::<(Seq<u8>, Outcome)>::empty()
    &&& outbox.log == Seq::<Dispatch>::empty()
}

/// Whether `inbound` is the connection that was set up after `count` others: the connection and
/// both of its descriptors have the identity that was due.
pub open spec fn set_up_after<D>(count: nat, inbound: Inbound<D>) -> bool {
    &&& inbound.parts.connection.id == connection_id(count)
    &&& inbound.parts.reader_descriptor@.id == connection_id(count)
    &&& inbound.socket_descriptor@.id == connection_id(count)
}

/// Sets up a connection to a peer at the address `ip` and `port`: takes an identity for it, makes
/// its channels, its reader and writer, and the two descriptors that lead to them, one for the
/// reading thread and one to announce the connection with.
pub fn setup_inbound<D: Clone>(
    ids: &mut IdCounter,
    tcp_disconnector: D,
    ip: IpOctets,
    port: u16,
) -> (inbound: Inbound<D>)
    requires
        old(ids).wf(),
    ensures
        final(ids).wf(),
        final(ids)@ == old(ids)@ + 1,
        set_up_after(old(ids)@, inbound),
        !inbound.parts.connection.read_paused,
        inbound.parts.reader@.attempts() == Seq::<Attempt<ReaderCommand>>::empty(),
        !inbound.parts.reader@.read_paused,
        inbound.parts.writer.wf(),
        inbound.parts.writer@.attempts() == Seq::<Attempt<Seq<u8>>>::empty(),
        inbound.parts.writer@.pending == Seq::<u8>::empty(),
        cloned(tcp_disconnector, inbound.parts.reader_descriptor@.tcp_disconnector),
        freshly_connected(inbound.parts.reader_descriptor@.outbox, inbound.parts),
        inbound.socket_descriptor@.tcp_disconnector == tcp_disconnector,
        freshly_connected(inbound.socket_descriptor@.outbox, inbound.parts),
        inbound.net_address == match ip {
            IpOctets::V4(addr) => NetAddress::IPv4 { addr, port },
            IpOctets::V6(addr) => NetAddress::IPv6 { addr, port },
        },
{
    let (reader_cmd_tx, reader_cmd_rx) = unbounded_reader_channel();
    let (writer_cmd_tx, writer_cmd_rx) = bounded_writer_channel(WRITER_CHANNEL_CAPACITY);
    let parts = Connection::init(
        ids,
        tcp_disconnector.clone(),
        clone_sender(&reader_cmd_tx),
        reader_cmd_rx,
        clone_sender(&writer_cmd_tx),
        writer_cmd_rx,
    );
    let socket_descriptor = SyncSocketDescriptor::new(
        parts.connection.id,
        tcp_disconnector,
        reader_cmd_tx,
        writer_cmd_tx,
    );
    Inbound { parts, socket_descriptor, net_address: NetAddress::from_socket(ip, port) }
}

/// Each connection is known to the peer manager under the descriptor that its reading thread
/// reports with, and two connections that are fewer than 2^64 apart are told apart.
pub proof fn law_connections_are_told_apart<D>(
    first: nat,
    one: Inbound<D>,
    second: nat,
    other: Inbound<D>,
)
    requires
        set_up_after(first, one),
        set_up_after(second, other),
        first < second < first + 0x1_0000_0000_0000_0000,
    ensures
        one.socket_descriptor.eq_spec(&one.parts.reader_descriptor),
        other.socket_descriptor.eq_spec(&other.parts.reader_descriptor),
        one.parts.connection.id != other.parts.connection.id,
        !one.socket_descriptor.eq_spec(&other.socket_descriptor),
        !one.socket_descriptor.eq_spec(&other.parts.reader_descriptor),
        !other.socket_descriptor.eq_spec(&one.parts.reader_descriptor),
{
    law_connection_ids_differ(first, second);
}

/// What is to follow the announcement of a connection to the peer manager.
#[derive(Debug, Clone, Copy, PartialEq, Eq, Structural)]
pub enum SetupAction {
    /// Leave the connection to its threads.
    Keep,
    /// Disconnect the socket.
    Disconnect,
}

/// Decides what follows the peer manager's answer to a new connection: one that it rejected is
/// disconnected. The answer itself is passed on to whoever set the connection up.
pub fn after_announcement<E>(answer: &Result<(), E>) -> (action: SetupAction)
    ensures
        action == match answer {
            Ok(()) => SetupAction::Keep,
            Err(_) => SetupAction::Disconnect,
        },
{
    match answer {
        Ok(()) => SetupAction::Keep,
        Err(_) => SetupAction::Disconnect,
    }
}

/// Identities are handed out one after the other: a counter that has handed out `ids@` of them
/// hands out that number next, modulo 2^64, and has then handed out one more. A new counter has
/// handed out none.
pub proof fn law_identities_are_drawn_in_order()
    ensures
        forall|ids: IdCounter| #[trigger] call_ensures(IdCounter::new, (), ids) ==> ids.wf() && ids@
            == 0,
        forall|ids: &mut IdCounter|
            ids.wf() ==> #[trigger] call_requires(IdCounter::draw, (ids,)),
        forall|ids: &mut IdCounter, id: u64|
            ids.wf() && #[trigger] call_ensures(IdCounter::draw, (ids,), id) ==> {
                &&& final(ids).wf()
                &&& final(ids)@ == ids@ + 1
                &&& id == ids@ % 0x1_0000_0000_0000_0000
            },
{
    assert forall|ids: &mut IdCounter, id: u64|
        ids.wf() && #[trigger] call_ensures(IdCounter::draw, (ids,), id) implies id == ids@
        % 0x1_0000_0000_0000_0000 by {
        lemma_connection_id(ids@);
    }
}

/// The parts of a connection hold the ends that it was made with: its reader and its writer
/// receive through them, and its descriptor sends through them. All have the identity that was
/// due, and nothing is paused, pending or sent yet.
pub proof fn law_connection_holds_its_ends<D>()
    ensures
        forall|
            ids: &mut IdCounter,
            tcp_disconnector: D,
            reader_cmd_tx: Sender<ReaderCommand>,
            reader_cmd_rx: Receiver<ReaderCommand>,
            writer_cmd_tx: Sender<WriterCommand>,
            writer_cmd_rx: Receiver<WriterCommand>,
            parts: ConnectionParts<D>,
        |
            ids.wf() && #[trigger] call_ensures(
                Connection::init::<D>,
                (
                    ids,
                    tcp_disconnector,
                    reader_cmd_tx,
                    reader_cmd_rx,
                    writer_cmd_tx,
                    writer_cmd_rx,
                ),
                parts,
            ) ==> {
                &&& final(ids).wf()
                &&& final(ids)@ == ids@ + 1
                &&& parts.connection.id == ids@ % 0x1_0000_0000_0000_0000
                &&& parts.reader_descriptor@.id == parts.connection.id
                &&& !parts.connection.read_paused
                &&& parts.reader@.rx == reader_cmd_rx
                &&& !parts.reader@.read_paused
                &&& parts.writer.wf()
                &&& parts.writer@.rx == writer_cmd_rx
                &&& parts.writer@.pending.len() == 0
                &&& parts.reader_descriptor@.tcp_disconnector == tcp_disconnector
                &&& parts.reader_descriptor@.outbox.reader_cmd_tx == reader_cmd_tx
                &&& parts.reader_descriptor@.outbox.writer_cmd_tx == writer_cmd_tx
            },
{
    assert forall|
        ids: &mut IdCounter,
        tcp_disconnector: D,
        reader_cmd_tx: Sender<ReaderCommand>,
        reader_cmd_rx: Receiver<ReaderCommand>,
        writer_cmd_tx: Sender<WriterCommand>,
        writer_cmd_rx: Receiver<WriterCommand>,
        parts: ConnectionParts<D>,
    |
        ids.wf() && #[trigger] call_ensures(
            Connection::init::<D>,
            (ids, tcp_disconnector, reader_cmd_tx, reader_cmd_rx, writer_cmd_tx, writer_cmd_rx),
            parts,
        ) implies parts.connection.id == ids@ % 0x1_0000_0000_0000_0000 by {
        lemma_connection_id(ids@);
    }
}

/// Every connection that is set up is wired up. Both of its descriptors lead to its own reader and
/// its own writer, over a channel without a limit and one that holds a single command, and nothing
/// was sent or received yet; reads are not paused and nothing is pending. The descriptors, and the
/// connection itself, have the identity that was due. The address tells the socket's.
pub proof fn law_connections_are_wired_up<D: Clone>()
    ensures
        forall|ids: &mut IdCounter, tcp_disconnector: D, ip: IpOctets, port: u16|
            ids.wf() ==> #[trigger] call_requires(
                setup_inbound::<D>,
                (ids, tcp_disconnector, ip, port),
            ),
        forall|
            ids: &mut IdCounter,
            tcp_disconnector: D,
            ip: IpOctets,
            port: u16,
            inbound: Inbound<D>,
        |
            ids.wf() && #[trigger] call_ensures(
                setup_inbound::<D>,
                (ids, tcp_disconnector, ip, port),
                inbound,
            ) ==> {
                let id = ids@ % 0x1_0000_0000_0000_0000;
                let parts = inbound.parts;
                let own = parts.reader_descriptor@;
                let announced = inbound.socket_descriptor@;
                &&& final(ids).wf()
                &&& final(ids)@ == ids@ + 1
                &&& parts.connection.id == id
                &&& own.id == id
                &&& announced.id == id
                &&& !parts.connection.read_paused
                &&& !parts.reader@.read_paused
                &&& parts.writer.wf()
                &&& parts.writer@.pending.len() == 0
                &&& parts.reader@.attempts().len() == 0
                &&& parts.writer@.attempts().len() == 0
                &&& reader_tx_channel(own.outbox.reader_cmd_tx) == parts.reader@.channel()
                &&& writer_tx_channel(own.outbox.writer_cmd_tx) == parts.writer@.channel()
                &&& reader_tx_channel(announced.outbox.reader_cmd_tx) == parts.reader@.channel()
                &&& writer_tx_channel(announced.outbox.writer_cmd_tx) == parts.writer@.channel()
                &&& parts.reader@.channel().capacity is None
                &&& parts.writer@.channel().capacity == Some(1usize)
                &&& reader_offers(own.outbox.reader_cmd_tx).len() == 0
                &&& writer_offers(own.outbox.writer_cmd_tx).len() == 0
                &&& reader_offers(announced.outbox.reader_cmd_tx).len() == 0
                &&& writer_offers(announced.outbox.writer_cmd_tx).len() == 0
                &&& cloned(tcp_disconnector, own.tcp_disconnector)
                &&& announced.tcp_disconnector == tcp_disconnector
                &&& match inbound.net_address {
                    NetAddress::IPv4 { addr, port: p } => ip == IpOctets::V4(addr) && port == p,
                    NetAddress::IPv6 { addr, port: p } => ip == IpOctets::V6(addr) && port == p,
                }
            },
{
    assert forall|
        ids: &mut IdCounter,
        tcp_disconnector: D,
        ip: IpOctets,
        port: u16,
        inbound: Inbound<D>,
    |
        ids.wf() && #[trigger] call_ensures(
            setup_inbound::<D>,
            (ids, tcp_disconnector, ip, port),
            inbound,
        ) implies inbound.parts.connection.id == ids@ % 0x1_0000_0000_0000_0000 by {
        lemma_connection_id(ids@);
    }
}

/// A connection is disconnected after its announcement exactly if the peer manager rejected it.
pub proof fn law_rejected_connections_are_disconnected<E>(
    answer: Result<(), E>,
    action: SetupAction,
)
    requires
        call_ensures(after_announcement::<E>, (&answer,), action),
    ensures
        action is Disconnect <==> answer is Err,
        action is Keep <==> answer is Ok,
{
}

} // verus!
