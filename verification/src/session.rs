//! What holds over a whole sequence of sends through a descriptor and its clones.
//!
//! The history of a clone begins with that of the descriptor it was cloned from, and then the two
//! run apart. So the histories of several descriptors cannot be put one after the other: what
//! went to the writer's channel is told by the sends themselves, in the order of the calls, and
//! the history of each descriptor is what it began with and what was sent through it since.

use crate::channel::{reader_tx_channel, writer_offers, writer_tx_channel, Outcome};
use crate::descriptor::{accepted_payloads, lemma_accepted_concat, lemma_sent, sent, taken_payload};
use crate::descriptor::SyncSocketDescriptor;
use crate::outbox::OutboxView;
use crate::writer::{law_disconnected_writer_wrote_everything, law_trace_is_a_run};
use crate::writer::{law_written_is_prefix_of_accepted, received_payloads, WriterTrace};
use vstd::prelude::*;

verus! {

/// One call on a descriptor of a session. Descriptors are numbered in the order in which they
/// came to be.
pub enum SessionCall {
    /// The descriptor `of` is cloned.
    Clone { of: int },
    /// `data` is sent through the descriptor `by`, and `accepted` is returned.
    Send { by: int, data: Seq<u8>, resume_read: bool, accepted: nat },
}

/// A sequence of calls, made one after the other, on a descriptor and its clones.
pub struct Session {
    /// The outboxes of all descriptors, before the first call and after each.
    pub states: Seq<Seq<OutboxView>>,
    pub calls: Seq<SessionCall>,
}

/// Whether `call` leads from `before` to `after`, by what `clone` and `send_data` promise.
pub open spec fn session_step(
    before: Seq<OutboxView>,
    call: SessionCall,
    after: Seq<OutboxView>,
) -> bool {
    match call {
        SessionCall::Clone { of } => {
            &&& 0 <= of < before.len()
            &&& after == before.push(before[of])
        },
        SessionCall::Send { by, data, resume_read, accepted } => {
            &&& 0 <= by < before.len()
            &&& after == before.update(by, after[by])
            &&& sent(before[by], after[by], data, resume_read, accepted)
        },
    }
}

/// The history of the writer's channel as the holder of `outbox` knows it.
pub open spec fn offers_of(outbox: OutboxView) -> Seq<(Seq<u8>, Outcome)> {
    writer_offers(outbox.writer_cmd_tx)
}

impl Session {
    /// Whether the calls can go like this, beginning with one descriptor.
    pub open spec fn possible(self) -> bool {
        &&& self.states.len() == self.calls.len() + 1
        &&& self.states[0].len() == 1
        &&& forall|i: int|
            0 <= i < self.calls.len() ==> session_step(
                #[trigger] self.states[i],
                self.calls[i],
                self.states[i + 1],
            )
    }

    /// What call `i` offers to the writer's channel.
    pub open spec fn made(self, i: int) -> Seq<(Seq<u8>, Outcome)> {
        match self.calls[i] {
            SessionCall::Clone { of: _ } => seq![],
            SessionCall::Send { by, data: _, resume_read: _, accepted: _ } => offers_of(
                self.states[i + 1][by],
            ).skip(offers_of(self.states[i][by]).len() as int),
        }
    }

    /// Everything that the first `count` calls offer to the writer's channel, in the order of the
    /// calls.
    pub open spec fn offers(self, count: nat) -> Seq<(Seq<u8>, Outcome)>
        decreases count,
    {
        if count == 0 {
            seq![]
        } else {
            self.offers((count - 1) as nat) + self.made(count - 1)
        }
    }

    /// The part of those offers that is made through descriptor `d`.
    pub open spec fn own_offers(self, count: nat, d: int) -> Seq<(Seq<u8>, Outcome)>
        decreases count,
    {
        if count == 0 {
            seq![]
        } else {
            let earlier = self.own_offers((count - 1) as nat, d);
            match self.calls[count - 1] {
                SessionCall::Send { by, data: _, resume_read: _, accepted: _ } => if by == d {
                    earlier + self.made(count - 1)
                } else {
                    earlier
                },
                SessionCall::Clone { of: _ } => earlier,
            }
        }
    }

    /// The history that descriptor `d` began with, if it is among those there after `count`
    /// calls: a clone begins with the history of the descriptor that it was cloned from.
    pub open spec fn first_offers(self, count: nat, d: int) -> Seq<(Seq<u8>, Outcome)>
        decreases count,
    {
        if count == 0 {
            offers_of(self.states[0][d])
        } else if d < self.states[count - 1].len() {
            self.first_offers((count - 1) as nat, d)
        } else {
            match self.calls[count - 1] {
                SessionCall::Clone { of } => offers_of(self.states[count - 1][of]),
                _ => seq![],
            }
        }
    }

    /// The data of those of the first `count` calls that sent something and did not return 0, in
    /// the order of the calls.
    pub open spec fn taken(self, count: nat) -> Seq<Seq<u8>>
        decreases count,
    {
        if count == 0 {
            seq![]
        } else {
            let earlier = self.taken((count - 1) as nat);
            match self.calls[count - 1] {
                SessionCall::Send { by: _, data, resume_read: _, accepted } => earlier
                    + taken_payload(data, accepted),
                SessionCall::Clone { of: _ } => earlier,
            }
        }
    }
}

/// The steps of a session are the calls of `clone` and `send_data` on its descriptors: with each of
/// them, one descriptor comes to be or changes as the step says.
pub proof fn law_calls_are_session_steps<D: Clone>(before: Seq<OutboxView>, d: int)
    requires
        0 <= d < before.len(),
    ensures
        forall|descriptor: SyncSocketDescriptor<D>, other: SyncSocketDescriptor<D>|
            descriptor@.outbox == before[d] && #[trigger] call_ensures(
                <SyncSocketDescriptor<D> as Clone>::clone,
                (&descriptor,),
                other,
            ) ==> session_step(
                before,
                SessionCall::Clone { of: d },
                before.push(other@.outbox),
            ),
        forall|
            descriptor: &mut SyncSocketDescriptor<D>,
            data: &[u8],
            resume_read: bool,
            accepted: usize,
        |
            descriptor@.outbox == before[d] && #[trigger] call_ensures(
                SyncSocketDescriptor::<D>::send_data,
                (descriptor, data, resume_read),
                accepted,
            ) ==> session_step(
                before,
                SessionCall::Send { by: d, data: data@, resume_read, accepted: accepted as nat },
                before.update(d, final(descriptor)@.outbox),
            ),
{
}

/// No offer is made through a descriptor before it comes to be.
proof fn lemma_no_own_offers(session: Session, count: nat, d: int)
    requires
        session.possible(),
        count <= session.calls.len(),
        session.states[count as int].len() <= d,
    ensures
        session.own_offers(count, d) == Seq::<(Seq<u8>, Outcome)>::empty(),
    decreases count,
{
    if count > 0 {
        let before = session.states[count - 1];
        assert(session_step(before, session.calls[count - 1], session.states[count as int]));
        lemma_no_own_offers(session, (count - 1) as nat, d);
    }
}

/// The history of every descriptor is what it began with, followed by what was offered through it
/// since; and all descriptors stay with the two channels of the first.
pub proof fn law_histories_of_clones(session: Session, count: nat, d: int)
    requires
        session.possible(),
        count <= session.calls.len(),
        0 <= d < session.states[count as int].len(),
    ensures
        offers_of(session.states[count as int][d]) == session.first_offers(count, d)
            + session.own_offers(count, d),
        reader_tx_channel(session.states[count as int][d].reader_cmd_tx) == reader_tx_channel(
            session.states[0][0].reader_cmd_tx,
        ),
        writer_tx_channel(session.states[count as int][d].writer_cmd_tx) == writer_tx_channel(
            session.states[0][0].writer_cmd_tx,
        ),
    decreases count,
{
    let after = session.states[count as int];
    if count == 0 {
        assert(offers_of(after[d]) =~= session.first_offers(0, d) + session.own_offers(0, d));
    } else {
        let earlier = (count - 1) as nat;
        let before = session.states[count - 1];
        assert(session_step(before, session.calls[count - 1], after));
        match session.calls[count - 1] {
            SessionCall::Clone { of } => {
                if d < before.len() {
                    law_histories_of_clones(session, earlier, d);
                } else {
                    law_histories_of_clones(session, earlier, of);
                    lemma_no_own_offers(session, earlier, d);
                    assert(offers_of(after[d]) =~= session.first_offers(count, d)
                        + session.own_offers(count, d));
                }
            },
            SessionCall::Send { by, data, resume_read, accepted } => {
                law_histories_of_clones(session, earlier, d);
                if by == d {
                    lemma_sent(before[by], after[by], data, resume_read, accepted);
                    assert(offers_of(after[d]) =~= session.first_offers(count, d)
                        + session.own_offers(count, d));
                }
            },
        }
    }
}

/// Of all the sends of a session, the writer's channel takes over exactly the data of those that
/// did not return 0, each once and in the order of the calls. A send that returned 0 contributes
/// no byte, so the same data can be sent again without being repeated.
pub proof fn law_accepted_sends_are_taken(session: Session, count: nat)
    requires
        session.possible(),
        count <= session.calls.len(),
    ensures
        accepted_payloads(session.offers(count)) == session.taken(count),
    decreases count,
{
    if count > 0 {
        let earlier = (count - 1) as nat;
        let before = session.states[count - 1];
        let after = session.states[count as int];
        assert(session_step(before, session.calls[count - 1], after));
        law_accepted_sends_are_taken(session, earlier);
        match session.calls[count - 1] {
            SessionCall::Clone { of: _ } => {
                assert(session.offers(count) =~= session.offers(earlier));
            },
            SessionCall::Send { by, data, resume_read, accepted } => {
                lemma_sent(before[by], after[by], data, resume_read, accepted);
                lemma_accepted_concat(session.offers(earlier), session.made(count - 1));
            },
        }
    }
}

/// From the sends to the socket, where the session's descriptors are the only senders of the
/// writer's channel, which is empty at first. A channel hands its commands out in the order in
/// which it took them over: what the writer received are the first of the payloads accepted.
/// Then the writer receives the data of the sends that did not return 0, each once and in the
/// order of the calls; what the socket takes is always a prefix of that data; and a writer that
/// has received all of it and shuts down because the channel is disconnected has written all.
pub proof fn law_sends_reach_the_socket(session: Session, trace: WriterTrace)
    requires
        session.possible(),
        trace.possible(),
        trace.views[0].attempts().len() == 0,
        writer_tx_channel(session.states[0][0].writer_cmd_tx) == trace.views[0].channel(),
        received_payloads(trace.views.last().attempts()).is_prefix_of(
            accepted_payloads(session.offers(session.calls.len())),
        ),
    ensures
        received_payloads(trace.views.last().attempts()) == trace.run().received,
        trace.run().received.is_prefix_of(session.taken(session.calls.len())),
        trace.run().received.len() == session.taken(session.calls.len()).len()
            ==> trace.run().received == session.taken(session.calls.len()),
        trace.run().written.is_prefix_of(session.taken(session.calls.len()).flatten()),
        trace.run().received.len() == session.taken(session.calls.len()).len()
            && trace.events.len() > 0 && trace.actions.last() is Shutdown
            && trace.events.last() is Turn ==> trace.run().written == session.taken(
            session.calls.len(),
        ).flatten(),
{
    let taken = session.taken(session.calls.len());
    let inputs = trace.inputs(trace.events.len());
    law_accepted_sends_are_taken(session, session.calls.len());
    law_trace_is_a_run(trace, trace.events.len());
    let received = trace.run().received;
    assert(Seq::<Seq<u8>>::empty() + received =~= received);
    law_written_is_prefix_of_accepted(taken, inputs);
    if received.len() == taken.len() {
        assert(received =~= taken);
        if trace.events.len() > 0 && trace.actions.last() is Shutdown && trace.events.last()
            is Turn {
            let i = trace.events.len() - 1;
            assert(trace.event_follows(i));
            law_disconnected_writer_wrote_everything(inputs);
        }
    }
}

} // verus!
