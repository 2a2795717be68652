//! The handle through which a peer manager sends data to a peer and disconnects from it.

use crate::channel::{reader_offers, reader_tx_channel, writer_offers, writer_tx_channel, Outcome};
use crate::commands::{ReaderCommand, WriterCommand};
use crate::outbox::{lemma_extends_push, to_reader, to_writer, Dispatch, Outbox, OutboxView};
use crossbeam::channel::Sender;
use vstd::prelude::*;
use vstd::slice::slice_to_vec;
use vstd::std_specs::cmp::PartialEqSpec;

verus! {

/// A synchronous socket descriptor.
///
/// It identifies one connection, carries what shuts the underlying socket down (of type `D`),
/// and passes commands and data on to the reader and the writer of that connection. It never
/// calls back into the peer manager and never blocks.
pub struct SyncSocketDescriptor<D> {
    id: u64,
    tcp_disconnector: D,
    outbox: Outbox,
}

/// What a [`SyncSocketDescriptor`] stands for.
#[verifier::reject_recursive_types(D)]
pub struct DescriptorView<D> {
    /// The connection that the descriptor belongs to.
    pub id: u64,
    /// What shuts the underlying socket down.
    pub tcp_disconnector: D,
    /// The sending ends of the connection's two channels, and what was offered to them.
    pub outbox: OutboxView,
}

impl<D> View for SyncSocketDescriptor<D> {
    type V = DescriptorView<D>;

    closed spec fn view(&self) -> DescriptorView<D> {
        DescriptorView {
            id: self.id,
            tcp_disconnector: self.tcp_disconnector,
            outbox: self.outbox@,
        }
    }
}

/// What is to follow an attempt to hand data to the writer.
#[derive(Debug, Clone, Copy, PartialEq, Eq, Structural)]
pub struct WriteReply {
    /// The number of bytes taken over by the writer.
    pub accepted: usize,
    /// Whether the reader is to be told to pause.
    pub pause_read: bool,
}

/// The number of bytes that count as sent, of `len` that were offered to the writer.
pub open spec fn accepted_len(len: nat, write: Outcome) -> nat {
    if write is Accepted {
        len
    } else {
        0
    }
}

/// Everything offered, in order, when `data` is sent: the reader is told to resume first if
/// that was asked for, then the data goes to the writer, and the reader is told to pause if the
/// writer had no room. `resume`, `write` and `pause` are the answers of the channels.
pub open spec fn send_trace(
    data: Seq<u8>,
    resume_read: bool,
    resume: Outcome,
    write: Outcome,
    pause: Outcome,
) -> Seq<Dispatch> {
    let before = if resume_read {
        seq![Dispatch::ToReader { cmd: ReaderCommand::ResumeRead, outcome: resume }]
    } else {
        seq![]
    };
    let after = if write is Full {
        seq![Dispatch::ToReader { cmd: ReaderCommand::PauseRead, outcome: pause }]
    } else {
        seq![]
    };
    before + seq![Dispatch::ToWriter { payload: data, outcome: write }] + after
}

/// Whether sending `data` leads from `before` to `after` and returns `accepted`, whatever the
/// channels answer. A channel without a limit is never full.
pub open spec fn sent(
    before: OutboxView,
    after: OutboxView,
    data: Seq<u8>,
    resume_read: bool,
    accepted: nat,
) -> bool {
    if data.len() == 0 {
        accepted == 0 && after == before
    } else {
        exists|resume: Outcome, write: Outcome, pause: Outcome|
            {
                &&& after.extends(
                    before,
                    #[trigger] send_trace(data, resume_read, resume, write, pause),
                )
                &&& accepted == accepted_len(data.len(), write)
                &&& reader_tx_channel(before.reader_cmd_tx).capacity is None ==> resume !is Full
                    && pause !is Full
                &&& writer_tx_channel(before.writer_cmd_tx).capacity is None ==> write !is Full
            }
    }
}

/// The payloads that the writer's channel took over, in order.
pub open spec fn accepted_payloads(offers: Seq<(Seq<u8>, Outcome)>) -> Seq<Seq<u8>>
    decreases offers.len(),
{
    if offers.len() == 0 {
        seq![]
    } else {
        let earlier = accepted_payloads(offers.drop_last());
        if offers.last().1 is Accepted {
            earlier.push(offers.last().0)
        } else {
            earlier
        }
    }
}

/// Of all that is offered when `data` is sent, the writer's channel sees the data only.
proof fn lemma_send_trace_to_writer(
    data: Seq<u8>,
    resume_read: bool,
    resume: Outcome,
    write: Outcome,
    pause: Outcome,
)
    ensures
        to_writer(send_trace(data, resume_read, resume, write, pause)) == seq![(data, write)],
{
    reveal_with_fuel(to_writer, 4);
    let trace = send_trace(data, resume_read, resume, write, pause);
    let told_to_resume = Dispatch::ToReader { cmd: ReaderCommand::ResumeRead, outcome: resume };
    let offered = Dispatch::ToWriter { payload: data, outcome: write };
    let up_to_offer = if resume_read {
        seq![told_to_resume, offered]
    } else {
        seq![offered]
    };
    if resume_read {
        assert(up_to_offer.drop_last() =~= seq![told_to_resume]);
        assert(seq![told_to_resume].drop_last() =~= Seq::<Dispatch>::empty());
    } else {
        assert(up_to_offer.drop_last() =~= Seq::<Dispatch>::empty());
    }
    assert(to_writer(up_to_offer) =~= seq![(data, write)]);
    if write is Full {
        assert(trace.drop_last() =~= up_to_offer);
    } else {
        assert(trace =~= up_to_offer);
    }
}

/// What a send adds to the payloads that the writer's channel took over: the data, if any of it
/// was accepted, and nothing otherwise.
pub open spec fn taken_payload(data: Seq<u8>, accepted: nat) -> Seq<Seq<u8>> {
    if accepted > 0 {
        seq![data]
    } else {
        seq![]
    }
}

/// A send adds to the history of the writer's channel, and to the payloads that it took over
/// what [`taken_payload`] says.
pub(crate) proof fn lemma_sent(
    before: OutboxView,
    after: OutboxView,
    data: Seq<u8>,
    resume_read: bool,
    accepted: nat,
)
    requires
        sent(before, after, data, resume_read, accepted),
    ensures
        ({
            let old_offers = writer_offers(before.writer_cmd_tx);
            let new_offers = writer_offers(after.writer_cmd_tx);
            let made = new_offers.skip(old_offers.len() as int);
            &&& new_offers == old_offers + made
            &&& accepted_payloads(made) == taken_payload(data, accepted)
            &&& accepted_payloads(new_offers) == accepted_payloads(old_offers) + taken_payload(
                data,
                accepted,
            )
        }),
        accepted == 0 || accepted == data.len(),
        reader_tx_channel(after.reader_cmd_tx) == reader_tx_channel(before.reader_cmd_tx),
        writer_tx_channel(after.writer_cmd_tx) == writer_tx_channel(before.writer_cmd_tx),
{
    let old_offers = writer_offers(before.writer_cmd_tx);
    let new_offers = writer_offers(after.writer_cmd_tx);
    let made = new_offers.skip(old_offers.len() as int);
    if data.len() == 0 {
        assert(made =~= Seq::empty());
    } else {
        let (resume, write, pause) = choose|resume: Outcome, write: Outcome, pause: Outcome|
            {
                &&& after.extends(
                    before,
                    #[trigger] send_trace(data, resume_read, resume, write, pause),
                )
                &&& accepted == accepted_len(data.len(), write)
            };
        lemma_send_trace_to_writer(data, resume_read, resume, write, pause);
        assert(made =~= seq![(data, write)]);
        assert(made.drop_last() =~= Seq::empty());
        reveal_with_fuel(accepted_payloads, 2);
        assert(accepted_payloads(made) =~= taken_payload(data, accepted));
    }
    assert(new_offers =~= old_offers + made);
    lemma_accepted_concat(old_offers, made);
}

/// The payloads taken over of two histories in a row.
pub(crate) proof fn lemma_accepted_concat(
    first: Seq<(Seq<u8>, Outcome)>,
    second: Seq<(Seq<u8>, Outcome)>,
)
    ensures
        accepted_payloads(first + second) == accepted_payloads(first) + accepted_payloads(second),
    decreases second.len(),
{
    if second.len() == 0 {
        assert(first + second =~= first);
        assert(accepted_payloads(first + second) =~= accepted_payloads(first)
            + accepted_payloads(second));
    } else {
        lemma_accepted_concat(first, second.drop_last());
        assert((first + second).drop_last() =~= first + second.drop_last());
        assert(accepted_payloads(first + second) =~= accepted_payloads(first)
            + accepted_payloads(second));
    }
}

/// Decides what follows the answer that the writer's channel gave to an offer of `len` bytes.
pub fn write_reply(len: usize, write: Outcome) -> (reply: WriteReply)
    ensures
        reply.accepted == accepted_len(len as nat, write),
        reply.pause_read <==> write is Full,
{
    match write {
        Outcome::Accepted => WriteReply { accepted: len, pause_read: false },
        // Busy writing, time to pause reads.
        Outcome::Full => WriteReply { accepted: 0, pause_read: true },
        // The writer detected a disconnect and shut down on its own.
        Outcome::Disconnected => WriteReply { accepted: 0, pause_read: false },
    }
}

impl<D> SyncSocketDescriptor<D> {
    /// A descriptor of the connection `connection_id`, through which nothing was sent yet.
    pub fn new(
        connection_id: u64,
        tcp_disconnector: D,
        reader_cmd_tx: Sender<ReaderCommand>,
        writer_cmd_tx: Sender<WriterCommand>,
    ) -> (descriptor: Self)
        ensures
            descriptor@ == (DescriptorView {
                id: connection_id,
                tcp_disconnector,
                outbox: OutboxView { reader_cmd_tx, writer_cmd_tx, log: Seq::empty() },
            }),
    {
        SyncSocketDescriptor {
            id: connection_id,
            tcp_disconnector,
            outbox: Outbox::new(reader_cmd_tx, writer_cmd_tx),
        }
    }

    /// The connection that the descriptor belongs to.
    pub fn id(&self) -> (id: u64)
        ensures
            id == self@.id,
    {
        self.id
    }

    /// What shuts the underlying socket down.
    pub fn tcp_disconnector(&self) -> (disconnector: &D)
        ensures
            *disconnector == self@.tcp_disconnector,
    {
        &self.tcp_disconnector
    }

    /// Passes `data` on to the writer and returns how many of its bytes were taken over: all
    /// of them, or none.
    ///
    /// With `resume_read`, the reader is told to resume before the data is offered. If the
    /// writer is still busy with earlier data, the reader is told to pause. Whether the reader
    /// could be told does not matter to the result. Empty data is not passed on at all, and the
    /// reader is then told nothing.
    ///
    /// Commands are only ever offered, never waited for, so the call returns at once.
    pub fn send_data(&mut self, data: &[u8], resume_read: bool) -> (accepted: usize)
        ensures
            final(self)@ == (DescriptorView { outbox: final(self)@.outbox, ..old(self)@ }),
            sent(
                old(self)@.outbox,
                final(self)@.outbox,
                data@,
                resume_read,
                accepted as nat,
            ),
            accepted == 0 || accepted == data@.len(),
            accepted_payloads(writer_offers(final(self)@.outbox.writer_cmd_tx)).flatten()
                == accepted_payloads(writer_offers(old(self)@.outbox.writer_cmd_tx)).flatten()
                + data@.take(accepted as int),
    {
        if data.len() == 0 {
            assert(data@.take(0) =~= Seq::empty());
            return 0;
        }
        let ghost before = self@.outbox;
        let ghost mut trace = Seq::<Dispatch>::empty();
        let ghost mut resume = Outcome::Accepted;
        let ghost mut pause = Outcome::Accepted;
        assert(before.extends(before, trace));
        if resume_read {
            let told = self.outbox.offer_to_reader(ReaderCommand::ResumeRead);
            proof {
                let dispatch = Dispatch::ToReader {
                    cmd: ReaderCommand::ResumeRead,
                    outcome: told,
                };
                lemma_extends_push(before, before, self@.outbox, trace, dispatch);
                trace = trace.push(dispatch);
                resume = told;
            }
        }
        let ghost middle = self@.outbox;
        // The data is copied because a borrowed slice cannot be sent across threads.
        let write = self.outbox.offer_to_writer(WriterCommand::WriteData(slice_to_vec(data)));
        proof {
            let dispatch = Dispatch::ToWriter { payload: data@, outcome: write };
            lemma_extends_push(before, middle, self@.outbox, trace, dispatch);
            trace = trace.push(dispatch);
        }
        let reply = write_reply(data.len(), write);
        if reply.pause_read {
            let ghost middle = self@.outbox;
            let told = self.outbox.offer_to_reader(ReaderCommand::PauseRead);
            proof {
                let dispatch = Dispatch::ToReader { cmd: ReaderCommand::PauseRead, outcome: told };
                lemma_extends_push(before, middle, self@.outbox, trace, dispatch);
                trace = trace.push(dispatch);
                pause = told;
            }
        }
        proof {
            assert(trace =~= send_trace(data@, resume_read, resume, write, pause));
            lemma_sent(before, self@.outbox, data@, resume_read, reply.accepted as nat);
            let taken = accepted_payloads(writer_offers(before.writer_cmd_tx));
            assert(taken + seq![data@] =~= taken.push(data@));
            assert(taken + seq![] =~= taken);
            taken.lemma_flatten_push(data@);
            assert(data@.take(reply.accepted as int) =~= if reply.accepted > 0 {
                data@
            } else {
                seq![]
            });
        }
        reply.accepted
    }
}

impl<D: Clone> Clone for SyncSocketDescriptor<D> {
    /// Another descriptor of the same connection: it has the same identity and leads to the
    /// same channels.
    fn clone(&self) -> (res: Self)
        ensures
            res@.id == self@.id,
            cloned(self@.tcp_disconnector, res@.tcp_disconnector),
            res@.outbox == self@.outbox,
    {
        SyncSocketDescriptor {
            id: self.id,
            tcp_disconnector: self.tcp_disconnector.clone(),
            outbox: self.outbox.duplicate(),
        }
    }
}

impl<D> PartialEq for SyncSocketDescriptor<D> {
    /// Descriptors are equal if they belong to the same connection.
    fn eq(&self, other: &Self) -> (res: bool) {
        self.id == other.id
    }
}

impl<D> vstd::std_specs::cmp::PartialEqSpecImpl for SyncSocketDescriptor<D> {
    open spec fn obeys_eq_spec() -> bool {
        true
    }

    open spec fn eq_spec(&self, other: &Self) -> bool {
        self@.id == other@.id
    }
}

impl<D> Eq for SyncSocketDescriptor<D> {

}

/// Equality of descriptors is an equivalence.
pub proof fn law_equality_is_an_equivalence<D>(
    a: SyncSocketDescriptor<D>,
    b: SyncSocketDescriptor<D>,
    c: SyncSocketDescriptor<D>,
)
    ensures
        a.eq_spec(&a),
        a.eq_spec(&b) <==> b.eq_spec(&a),
        a.eq_spec(&b) && b.eq_spec(&c) ==> a.eq_spec(&c),
{
}

/// Calls `<u64 as Hash>::hash`, which feeds the number to the hasher. What that does to the
/// hasher is up to the hasher, which need not even be deterministic, so nothing is claimed of it:
/// a contract says that a hasher was fed a number, and with which, by way of `call_ensures` of
/// this call.
#[verifier::external_body]
pub fn feed_id<H: core::hash::Hasher>(id: u64, state: &mut H) {
    core::hash::Hash::hash(&id, state)
}

impl<D> SyncSocketDescriptor<D> {
    /// The number that stands for the descriptor in a hash.
    pub open spec fn key(self) -> u64 {
        self@.id
    }
}

impl<D> core::hash::Hash for SyncSocketDescriptor<D> {
    /// Feeds the identity of the connection to the hasher, once, and nothing else: the hasher
    /// goes from its state before to that after as it can when it is fed that number alone.
    fn hash<H: core::hash::Hasher>(&self, state: &mut H)
        ensures
            exists|hasher: &mut H|
                *hasher == *old(state) && *final(hasher) == *final(state)
                    && #[trigger] call_ensures(feed_id::<H>, (self.key(), hasher), ()),
    {
        feed_id(self.id, state);
        assert(self.id == self.key());
        assert(exists|hasher: &mut H|
            *hasher == *old(state) && *final(hasher) == *state && #[trigger] call_ensures(
                feed_id::<H>,
                (self.key(), hasher),
                (),
            ));
    }
}

/// Equal descriptors hash alike, and only they do: the same number stands for both exactly if
/// they belong to the same connection. Whatever hashing one of two equal descriptors can do to a
/// hasher, hashing the other can do, as both feed it that number and nothing else. So a descriptor
/// and its clones are one key of a hash map, and two connections are two.
pub proof fn law_equal_descriptors_hash_alike<D, H: core::hash::Hasher>(
    a: SyncSocketDescriptor<D>,
    b: SyncSocketDescriptor<D>,
    before: H,
    after: H,
)
    ensures
        a.eq_spec(&b) <==> a.key() == b.key(),
        a.key() == a@.id,
        a.eq_spec(&b) ==> ((exists|hasher: &mut H|
            *hasher == before && *final(hasher) == after && #[trigger] call_ensures(
                feed_id::<H>,
                (a.key(), hasher),
                (),
            )) <==> (exists|hasher: &mut H|
            *hasher == before && *final(hasher) == after && #[trigger] call_ensures(
                feed_id::<H>,
                (b.key(), hasher),
                (),
            ))),
{
}

/// Of all that is offered when `data` is sent, the reader's channel sees the commands only.
proof fn lemma_send_trace_to_reader(
    data: Seq<u8>,
    resume_read: bool,
    resume: Outcome,
    write: Outcome,
    pause: Outcome,
)
    ensures
        ({
            let resumed = (ReaderCommand::ResumeRead, resume);
            let paused = (ReaderCommand::PauseRead, pause);
            to_reader(send_trace(data, resume_read, resume, write, pause)) == match (
                resume_read,
                write is Full,
            ) {
                (true, true) => seq![resumed, paused],
                (true, false) => seq![resumed],
                (false, true) => seq![paused],
                (false, false) => seq![],
            }
        }),
{
    reveal_with_fuel(to_reader, 4);
    let trace = send_trace(data, resume_read, resume, write, pause);
    let resumed = Dispatch::ToReader { cmd: ReaderCommand::ResumeRead, outcome: resume };
    let offered = Dispatch::ToWriter { payload: data, outcome: write };
    let paused = Dispatch::ToReader { cmd: ReaderCommand::PauseRead, outcome: pause };
    assert(seq![resumed, offered, paused].drop_last() =~= seq![resumed, offered]);
    assert(seq![offered, paused].drop_last() =~= seq![offered]);
    assert(seq![resumed, offered].drop_last() =~= seq![resumed]);
    assert(seq![resumed].drop_last() =~= Seq::<Dispatch>::empty());
    assert(seq![offered].drop_last() =~= Seq::<Dispatch>::empty());
    assert(trace =~= match (resume_read, write is Full) {
        (true, true) => seq![resumed, offered, paused],
        (true, false) => seq![resumed, offered],
        (false, true) => seq![offered, paused],
        (false, false) => seq![offered],
    });
}

/// What a send of `data` adds to the histories of the two channels, and in what order.
spec fn added(
    before: OutboxView,
    after: OutboxView,
    data: Seq<u8>,
    resume_read: bool,
    accepted: nat,
) -> bool {
    let offers = writer_offers(after.writer_cmd_tx);
    let answer = offers.last().1;
    let known = reader_offers(before.reader_cmd_tx);
    let all = reader_offers(after.reader_cmd_tx);
    let first = known.len() as int;
    let resumed: int = if resume_read {
        1
    } else {
        0
    };
    let paused: int = if answer is Full {
        1
    } else {
        0
    };
    let start = before.log.len() as int;
    &&& offers == writer_offers(before.writer_cmd_tx).push((data, answer))
    &&& accepted == if answer is Accepted {
        data.len()
    } else {
        0
    }
    &&& known.is_prefix_of(all)
    &&& all.len() == first + resumed + paused
    &&& resume_read ==> all[first].0 is ResumeRead
    &&& answer is Full ==> all.last().0 is PauseRead
    &&& before.log.is_prefix_of(after.log)
    &&& after.log.len() == start + resumed + 1 + paused
    &&& after.log[start + resumed] == (Dispatch::ToWriter { payload: data, outcome: answer })
    &&& resume_read ==> after.log[start] == (Dispatch::ToReader {
        cmd: ReaderCommand::ResumeRead,
        outcome: all[first].1,
    })
    &&& answer is Full ==> after.log.last() == (Dispatch::ToReader {
        cmd: ReaderCommand::PauseRead,
        outcome: all.last().1,
    })
    &&& reader_tx_channel(after.reader_cmd_tx) == reader_tx_channel(before.reader_cmd_tx)
    &&& writer_tx_channel(after.writer_cmd_tx) == writer_tx_channel(before.writer_cmd_tx)
    &&& writer_tx_channel(before.writer_cmd_tx).capacity is None ==> answer !is Full
    &&& reader_tx_channel(before.reader_cmd_tx).capacity is None ==> forall|i: int|
        first <= i < all.len() ==> (#[trigger] all[i]).1 !is Full
}

proof fn lemma_sent_adds(
    before: OutboxView,
    after: OutboxView,
    data: Seq<u8>,
    resume_read: bool,
    accepted: nat,
)
    requires
        sent(before, after, data, resume_read, accepted),
        data.len() > 0,
    ensures
        added(before, after, data, resume_read, accepted),
{
    let (resume, write, pause) = choose|resume: Outcome, write: Outcome, pause: Outcome|
        {
            &&& after.extends(
                before,
                #[trigger] send_trace(data, resume_read, resume, write, pause),
            )
            &&& accepted == accepted_len(data.len(), write)
            &&& reader_tx_channel(before.reader_cmd_tx).capacity is None ==> resume !is Full
                && pause !is Full
            &&& writer_tx_channel(before.writer_cmd_tx).capacity is None ==> write !is Full
        };
    lemma_send_trace_to_writer(data, resume_read, resume, write, pause);
    lemma_send_trace_to_reader(data, resume_read, resume, write, pause);
    let known = reader_offers(before.reader_cmd_tx);
    let all = reader_offers(after.reader_cmd_tx);
    assert(writer_offers(after.writer_cmd_tx) =~= writer_offers(before.writer_cmd_tx).push(
        (data, write),
    ));
    assert(all.subrange(0, known.len() as int) =~= known);
    assert(after.log.subrange(0, before.log.len() as int) =~= before.log);
}

/// Data can be sent at any time. Every call of `send_data` with some data, of whatever length,
/// offers exactly that data to the writer's channel, once, and returns its length if the channel
/// took it over and 0 if not. With no data it does nothing and returns 0.
pub proof fn law_send_data_offers_the_data<D>()
    ensures
        forall|descriptor: &mut SyncSocketDescriptor<D>, data: &[u8], resume_read: bool|
            #[trigger] call_requires(
                SyncSocketDescriptor::<D>::send_data,
                (descriptor, data, resume_read),
            ),
        forall|
            descriptor: &mut SyncSocketDescriptor<D>,
            data: &[u8],
            resume_read: bool,
            accepted: usize,
        | #[trigger]
            call_ensures(
                SyncSocketDescriptor::<D>::send_data,
                (descriptor, data, resume_read),
                accepted,
            ) ==> {
                let offers = writer_offers(descriptor@.outbox.writer_cmd_tx);
                let offers_after = writer_offers(final(descriptor)@.outbox.writer_cmd_tx);
                if data@.len() == 0 {
                    accepted == 0 && final(descriptor)@ == descriptor@
                } else {
                    &&& offers_after == offers.push((data@, offers_after.last().1))
                    &&& offers_after.last().1 is Accepted ==> accepted == data@.len()
                    &&& offers_after.last().1 !is Accepted ==> accepted == 0
                }
            },
{
    assert forall|
        descriptor: &mut SyncSocketDescriptor<D>,
        data: &[u8],
        resume_read: bool,
        accepted: usize,
    | #[trigger]
        call_ensures(
            SyncSocketDescriptor::<D>::send_data,
            (descriptor, data, resume_read),
            accepted,
        ) && data@.len() > 0 implies added(
        descriptor@.outbox,
        final(descriptor)@.outbox,
        data@,
        resume_read,
        accepted as nat,
    ) by {
        lemma_sent_adds(
            descriptor@.outbox,
            final(descriptor)@.outbox,
            data@,
            resume_read,
            accepted as nat,
        );
    }
}

/// Back-pressure: whenever the writer's channel is full when data is offered to it, the reader is
/// told to pause, after that and as the last thing that the call does. With any other answer the
/// reader is not told to pause.
pub proof fn law_full_writer_pauses_the_reader<D>()
    ensures
        forall|
            descriptor: &mut SyncSocketDescriptor<D>,
            data: &[u8],
            resume_read: bool,
            accepted: usize,
        | #[trigger]
            call_ensures(
                SyncSocketDescriptor::<D>::send_data,
                (descriptor, data, resume_read),
                accepted,
            ) && data@.len() > 0 ==> {
                let before = descriptor@.outbox;
                let after = final(descriptor)@.outbox;
                let known = reader_offers(before.reader_cmd_tx);
                let all = reader_offers(after.reader_cmd_tx);
                &&& known.is_prefix_of(all)
                &&& writer_offers(after.writer_cmd_tx).last().1 is Full ==> {
                    &&& all.len() > known.len()
                    &&& all.last().0 is PauseRead
                    &&& after.log.len() > before.log.len()
                    &&& after.log.last() == (Dispatch::ToReader {
                        cmd: ReaderCommand::PauseRead,
                        outcome: all.last().1,
                    })
                    &&& forall|i: int|
                        known.len() <= i < all.len() - 1 ==> (#[trigger] all[i]).0 !is PauseRead
                }
                &&& writer_offers(after.writer_cmd_tx).last().1 !is Full ==> forall|i: int|
                    known.len() <= i < all.len() ==> (#[trigger] all[i]).0 !is PauseRead
            },
{
    assert forall|
        descriptor: &mut SyncSocketDescriptor<D>,
        data: &[u8],
        resume_read: bool,
        accepted: usize,
    | #[trigger]
        call_ensures(
            SyncSocketDescriptor::<D>::send_data,
            (descriptor, data, resume_read),
            accepted,
        ) && data@.len() > 0 implies added(
        descriptor@.outbox,
        final(descriptor)@.outbox,
        data@,
        resume_read,
        accepted as nat,
    ) by {
        lemma_sent_adds(
            descriptor@.outbox,
            final(descriptor)@.outbox,
            data@,
            resume_read,
            accepted as nat,
        );
    }
}

/// With `resume_read`, every call of `send_data` with some data tells the reader to resume, once,
/// as the first thing that the call does and so before the data is offered. Without `resume_read`
/// the reader is not told to resume.
pub proof fn law_resume_comes_before_the_data<D>()
    ensures
        forall|
            descriptor: &mut SyncSocketDescriptor<D>,
            data: &[u8],
            resume_read: bool,
            accepted: usize,
        | #[trigger]
            call_ensures(
                SyncSocketDescriptor::<D>::send_data,
                (descriptor, data, resume_read),
                accepted,
            ) && data@.len() > 0 ==> {
                let before = descriptor@.outbox;
                let after = final(descriptor)@.outbox;
                let known = reader_offers(before.reader_cmd_tx);
                let all = reader_offers(after.reader_cmd_tx);
                let first = known.len() as int;
                let start = before.log.len() as int;
                let offer = Dispatch::ToWriter {
                    payload: data@,
                    outcome: writer_offers(after.writer_cmd_tx).last().1,
                };
                &&& before.log.is_prefix_of(after.log)
                &&& resume_read ==> {
                    &&& all.len() > first
                    &&& all[first].0 is ResumeRead
                    &&& after.log.len() > start + 1
                    &&& after.log[start] == (Dispatch::ToReader {
                        cmd: ReaderCommand::ResumeRead,
                        outcome: all[first].1,
                    })
                    &&& after.log[start + 1] == offer
                    &&& forall|i: int|
                        first < i < all.len() ==> (#[trigger] all[i]).0 !is ResumeRead
                }
                &&& !resume_read ==> {
                    &&& after.log.len() > start
                    &&& after.log[start] == offer
                    &&& forall|i: int|
                        first <= i < all.len() ==> (#[trigger] all[i]).0 !is ResumeRead
                }
            },
{
    assert forall|
        descriptor: &mut SyncSocketDescriptor<D>,
        data: &[u8],
        resume_read: bool,
        accepted: usize,
    | #[trigger]
        call_ensures(
            SyncSocketDescriptor::<D>::send_data,
            (descriptor, data, resume_read),
            accepted,
        ) && data@.len() > 0 implies added(
        descriptor@.outbox,
        final(descriptor)@.outbox,
        data@,
        resume_read,
        accepted as nat,
    ) by {
        lemma_sent_adds(
            descriptor@.outbox,
            final(descriptor)@.outbox,
            data@,
            resume_read,
            accepted as nat,
        );
    }
}

/// A send tells the reader to resume, to pause, or both, and nothing more; it stays with the
/// connection and its two channels; and a channel without a limit is not found full.
pub proof fn law_send_data_does_nothing_else<D>()
    ensures
        forall|
            descriptor: &mut SyncSocketDescriptor<D>,
            data: &[u8],
            resume_read: bool,
            accepted: usize,
        | #[trigger]
            call_ensures(
                SyncSocketDescriptor::<D>::send_data,
                (descriptor, data, resume_read),
                accepted,
            ) ==> {
                let before = descriptor@.outbox;
                let after = final(descriptor)@.outbox;
                let known = reader_offers(before.reader_cmd_tx);
                let all = reader_offers(after.reader_cmd_tx);
                let full = writer_offers(after.writer_cmd_tx).last().1 is Full;
                &&& final(descriptor)@.id == descriptor@.id
                &&& final(descriptor)@.tcp_disconnector == descriptor@.tcp_disconnector
                &&& reader_tx_channel(after.reader_cmd_tx) == reader_tx_channel(
                    before.reader_cmd_tx,
                )
                &&& writer_tx_channel(after.writer_cmd_tx) == writer_tx_channel(
                    before.writer_cmd_tx,
                )
                &&& data@.len() > 0 ==> {
                    &&& all.len() - known.len() == if resume_read && full {
                        2int
                    } else if resume_read || full {
                        1
                    } else {
                        0
                    }
                    &&& after.log.len() - before.log.len() == all.len() - known.len() + 1
                    &&& writer_tx_channel(before.writer_cmd_tx).capacity is None ==> !full
                    &&& reader_tx_channel(before.reader_cmd_tx).capacity is None ==> forall|i: int|
                        known.len() <= i < all.len() ==> (#[trigger] all[i]).1 !is Full
                }
            },
{
    assert forall|
        descriptor: &mut SyncSocketDescriptor<D>,
        data: &[u8],
        resume_read: bool,
        accepted: usize,
    | #[trigger]
        call_ensures(
            SyncSocketDescriptor::<D>::send_data,
            (descriptor, data, resume_read),
            accepted,
        ) && data@.len() > 0 implies added(
        descriptor@.outbox,
        final(descriptor)@.outbox,
        data@,
        resume_read,
        accepted as nat,
    ) by {
        lemma_sent_adds(
            descriptor@.outbox,
            final(descriptor)@.outbox,
            data@,
            resume_read,
            accepted as nat,
        );
    }
}

/// What follows the writer's answer: all bytes count as sent if it took them over, and none
/// otherwise; and the reader is to pause only if it was busy.
pub proof fn law_write_reply(len: usize, write: Outcome, reply: WriteReply)
    requires
        call_ensures(write_reply, (len, write), reply),
    ensures
        write is Accepted ==> reply.accepted == len && !reply.pause_read,
        write is Full ==> reply.accepted == 0 && reply.pause_read,
        write is Disconnected ==> reply.accepted == 0 && !reply.pause_read,
{
}

/// A descriptor answers with the identity and the disconnector that it was made with, and sends
/// through the two ends that it was made with.
pub proof fn law_new_descriptor_keeps_its_parts<D>(
    connection_id: u64,
    tcp_disconnector: D,
    reader_cmd_tx: Sender<ReaderCommand>,
    writer_cmd_tx: Sender<WriterCommand>,
    descriptor: SyncSocketDescriptor<D>,
    id: u64,
    disconnector: &D,
)
    requires
        call_ensures(
            SyncSocketDescriptor::<D>::new,
            (connection_id, tcp_disconnector, reader_cmd_tx, writer_cmd_tx),
            descriptor,
        ),
        call_ensures(SyncSocketDescriptor::<D>::id, (&descriptor,), id),
        call_ensures(SyncSocketDescriptor::<D>::tcp_disconnector, (&descriptor,), disconnector),
    ensures
        id == connection_id,
        *disconnector == tcp_disconnector,
        descriptor@.outbox.reader_cmd_tx == reader_cmd_tx,
        descriptor@.outbox.writer_cmd_tx == writer_cmd_tx,
        descriptor@.outbox.log.len() == 0,
{
}

/// A clone is equal to the descriptor that it was cloned from, is known under the same identity,
/// disconnects by a clone of the same disconnector, and leads to the same two channels with the
/// same past.
pub proof fn law_clone_serves_the_same_connection<D: Clone>(
    descriptor: SyncSocketDescriptor<D>,
    other: SyncSocketDescriptor<D>,
    equal: bool,
)
    requires
        call_ensures(<SyncSocketDescriptor<D> as Clone>::clone, (&descriptor,), other),
        call_ensures(<SyncSocketDescriptor<D> as PartialEq>::eq, (&descriptor, &other), equal),
    ensures
        equal,
        other@.id == descriptor@.id,
        cloned(descriptor@.tcp_disconnector, other@.tcp_disconnector),
        reader_tx_channel(other@.outbox.reader_cmd_tx) == reader_tx_channel(
            descriptor@.outbox.reader_cmd_tx,
        ),
        writer_tx_channel(other@.outbox.writer_cmd_tx) == writer_tx_channel(
            descriptor@.outbox.writer_cmd_tx,
        ),
        reader_offers(other@.outbox.reader_cmd_tx) == reader_offers(
            descriptor@.outbox.reader_cmd_tx,
        ),
        writer_offers(other@.outbox.writer_cmd_tx) == writer_offers(
            descriptor@.outbox.writer_cmd_tx,
        ),
{
}

/// Two descriptors compare as equal exactly if they answer with the same identity.
pub proof fn law_equality_is_by_connection<D>(
    a: SyncSocketDescriptor<D>,
    b: SyncSocketDescriptor<D>,
    equal: bool,
    id_of_a: u64,
    id_of_b: u64,
)
    requires
        call_ensures(<SyncSocketDescriptor<D> as PartialEq>::eq, (&a, &b), equal),
        call_ensures(SyncSocketDescriptor::<D>::id, (&a,), id_of_a),
        call_ensures(SyncSocketDescriptor::<D>::id, (&b,), id_of_b),
    ensures
        equal <==> id_of_a == id_of_b,
{
}

} // verus!
