//! What two endpoints of one connection guarantee together.
//!
//! The network between them is modelled by what each endpoint has ever sent: anything in that set
//! may arrive at the other end at any time, any number of times and in any order, or never.
//! Nothing else arrives.
//!
//! Any payload that was sent may reach the endpoint at the other end, also one that opens a
//! connection. An endpoint of a hidden service sees fewer: there such a payload opens the
//! connection and is not handed to an endpoint, see [`crate::relay`].

use vstd::prelude::*;

use crate::packet::{PacketView, PayloadView};
use crate::transport::{ActionView, EventView, TransportView};

verus! {

/// One endpoint, with everything that passed through it so far.
#[verifier::ext_equal]
pub struct Endpoint {
    pub state: TransportView,
    /// Every payload that was ever sent to the peer.
    pub sent: Set<PayloadView>,
    /// The chunks that were read from the local socket, in order.
    pub read: Seq<Seq<u8>>,
    /// The chunks that were written to the local socket, in order.
    pub written: Seq<Seq<u8>>,
}

impl Endpoint {
    /// An endpoint that has seen no event, and that opens the connection if it has a packet to
    /// start with.
    pub open spec fn fresh(self) -> bool {
        &&& self.state.last_out == 0
        &&& self.state.last_in == 0
        &&& self.state.unacked matches Some(packet) ==> packet.payload is Establish
        &&& self.sent == Set::<PayloadView>::empty()
        &&& self.read == Seq::<Seq<u8>>::empty()
        &&& self.written == Seq::<Seq<u8>>::empty()
    }

    /// The endpoint once it has handled `event` and carried out its reaction.
    pub open spec fn after(self, event: EventView) -> Endpoint {
        let action = self.state.reaction(event);
        Endpoint {
            state: self.state.after(event),
            sent: match action.send {
                Some(packet) => self.sent.insert(packet.payload),
                None => self.sent,
            },
            read: match event {
                EventView::Read(data) => self.read.push(data),
                _ => self.read,
            },
            written: match action.write {
                Some(data) => self.written.push(data),
                None => self.written,
            },
        }
    }

    /// Whether `event` can happen to this endpoint while its peer is `peer`.
    pub open spec fn may_see(self, peer: Endpoint, event: EventView) -> bool {
        &&& self.state.accepts(event)
        &&& event matches EventView::Received(payload) ==> peer.sent.contains(payload)
    }
}

/// Two endpoints of one connection.
#[verifier::ext_equal]
pub struct Session {
    pub left: Endpoint,
    pub right: Endpoint,
}

impl Session {
    pub open spec fn fresh(self) -> bool {
        self.left.fresh() && self.right.fresh()
    }

    /// Whether `next` follows when the left endpoint sees `event`.
    pub open spec fn left_step(self, event: EventView, next: Session) -> bool {
        &&& self.left.may_see(self.right, event)
        &&& next == Session { left: self.left.after(event), right: self.right }
    }

    /// Whether `next` follows when the right endpoint sees `event`.
    pub open spec fn right_step(self, event: EventView, next: Session) -> bool {
        &&& self.right.may_see(self.left, event)
        &&& next == Session { left: self.left, right: self.right.after(event) }
    }

    /// Whether one event at either endpoint leads from this session to `next`.
    pub open spec fn steps_to(self, next: Session) -> bool {
        exists|event: EventView|
            #![trigger self.left_step(event, next)]
            #![trigger self.right_step(event, next)]
            self.left_step(event, next) || self.right_step(event, next)
    }

    /// The same session seen from the other side.
    pub open spec fn swapped(self) -> Session {
        Session { left: self.right, right: self.left }
    }

    /// What holds of a session at every moment, in both directions.
    pub open spec fn inv(self) -> bool {
        sends_reliably(self.left, self.right) && sends_reliably(self.right, self.left)
    }
}

/// A course of events, from the start of a connection to its last session.
pub open spec fn is_run(run: Seq<Session>) -> bool {
    &&& run.len() > 0
    &&& run[0].fresh()
    &&& forall|i: int| 0 <= i < run.len() - 1 ==> (#[trigger] run[i]).steps_to(run[i + 1])
}

/// The bytes of the chunks, one after another.
pub open spec fn stream_bytes(chunks: Seq<Seq<u8>>) -> Seq<u8> {
    chunks.flatten()
}

/// How far the stream from `from` to `to` has come: what `to` has written is what `from` has
/// read, up to at most one chunk that `from` still holds as not confirmed.
pub open spec fn sends_reliably(from: Endpoint, to: Endpoint) -> bool {
    &&& from.state.last_out == from.read.len()
    &&& to.state.last_in == to.written.len()
    &&& to.written.is_prefix_of(from.read)
    &&& forall|idx: nat, data: Seq<u8>|
        #[trigger] from.sent.contains(PayloadView::Data { idx, data }) ==> 1 <= idx
            <= from.read.len() && data == from.read[idx - 1]
    &&& forall|idx: nat| #[trigger]
        to.sent.contains(PayloadView::Ack { idx }) ==> idx <= to.written.len()
    &&& match from.state.unacked {
        None => to.written.len() == from.read.len(),
        Some(PacketView { payload: PayloadView::Data { idx, data }, .. }) => {
            &&& idx == from.read.len()
            &&& idx >= 1
            &&& data == from.read[idx - 1]
            &&& to.written.len() + 1 >= from.read.len()
        },
        Some(PacketView { payload: PayloadView::Establish { .. }, .. }) => from.read.len() == 0,
        Some(PacketView { payload: PayloadView::Ack { .. }, .. }) => false,
    }
}

/// A fresh session satisfies the invariant.
pub proof fn fresh_session_is_reliable(session: Session)
    requires
        session.fresh(),
    ensures
        session.inv(),
{
}

/// An event at `from` keeps both directions.
proof fn sender_step_keeps(from: Endpoint, to: Endpoint, event: EventView)
    requires
        sends_reliably(from, to),
        sends_reliably(to, from),
        from.may_see(to, event),
    ensures
        sends_reliably(from.after(event), to),
        sends_reliably(to, from.after(event)),
{
}

/// Every event at either endpoint keeps the invariant.
pub proof fn steps_keep_reliability(session: Session, next: Session)
    requires
        session.inv(),
        session.steps_to(next),
    ensures
        next.inv(),
{
    let event = choose|event: EventView|
        #![trigger session.left_step(event, next)]
        #![trigger session.right_step(event, next)]
        session.left_step(event, next) || session.right_step(event, next);
    if session.left_step(event, next) {
        sender_step_keeps(session.left, session.right, event);
    } else {
        sender_step_keeps(session.right, session.left, event);
    }
}

/// Every session of a run satisfies the invariant.
pub proof fn runs_are_reliable(run: Seq<Session>, i: int)
    requires
        is_run(run),
        0 <= i < run.len(),
    ensures
        run[i].inv(),
    decreases i,
{
    if i == 0 {
        fresh_session_is_reliable(run[0]);
    } else {
        runs_are_reliable(run, i - 1);
        steps_keep_reliability(run[i - 1], run[i]);
    }
}

proof fn flatten_prefix(front: Seq<Seq<u8>>, whole: Seq<Seq<u8>>)
    requires
        front.is_prefix_of(whole),
    ensures
        stream_bytes(front).is_prefix_of(stream_bytes(whole)),
    decreases front.len(),
{
    if front.len() > 0 {
        let front_rest = front.drop_first();
        let whole_rest = whole.drop_first();
        assert(front_rest.is_prefix_of(whole_rest)) by {
            assert(front_rest =~= whole_rest.subrange(0, front_rest.len() as int));
        }
        flatten_prefix(front_rest, whole_rest);
        assert(front.first() == whole.first());
        assert(stream_bytes(front) == front.first() + stream_bytes(front_rest));
        assert(stream_bytes(whole) == whole.first() + stream_bytes(whole_rest));
        assert(stream_bytes(front) =~= stream_bytes(whole).subrange(
            0,
            stream_bytes(front).len() as int,
        ));
    }
}

/// At any moment of any run, the bytes that each endpoint has written are a prefix of the bytes
/// that the other has read: nothing is lost in between, repeated, reordered or made up.
pub proof fn streams_arrive_in_order(run: Seq<Session>, i: int)
    requires
        is_run(run),
        0 <= i < run.len(),
    ensures
        stream_bytes(run[i].right.written).is_prefix_of(stream_bytes(run[i].left.read)),
        stream_bytes(run[i].left.written).is_prefix_of(stream_bytes(run[i].right.read)),
{
    runs_are_reliable(run, i);
    flatten_prefix(run[i].right.written, run[i].left.read);
    flatten_prefix(run[i].left.written, run[i].right.read);
}

/// Whenever an endpoint has no packet left to confirm, the other has written everything that it
/// has read.
pub proof fn confirmed_streams_have_arrived(run: Seq<Session>, i: int)
    requires
        is_run(run),
        0 <= i < run.len(),
    ensures
        run[i].left.state.unacked is None ==> run[i].right.written == run[i].left.read,
        run[i].right.state.unacked is None ==> run[i].left.written == run[i].right.read,
{
    runs_are_reliable(run, i);
}

/// A lost packet or a lost confirmation is made up for: whatever happened before, once a tick of
/// the left endpoint, the arrival of the packet that it sends and the arrival of the answer
/// follow each other, the left endpoint is free to read on and the right one has everything. A
/// packet that opens the connection is made up for in this way where it reaches an endpoint, which
/// it does not at a hidden service: there each copy opens the connection anew.
pub proof fn resending_makes_progress(session: Session)
    requires
        session.inv(),
        session.left.state.unacked matches Some(packet) && session.right.state.accepts(
            EventView::Received(packet.payload),
        ),
    ensures
        ({
            let packet = session.left.state.unacked->Some_0;
            let ticked = Session { left: session.left.after(EventView::Tick), ..session };
            let arrived = Session {
                right: ticked.right.after(EventView::Received(packet.payload)),
                ..ticked
            };
            let answer = session.right.state.reaction(EventView::Received(packet.payload)).send;
            let confirmed = Session {
                left: arrived.left.after(EventView::Received(answer->Some_0.payload)),
                ..arrived
            };
            &&& session.left_step(EventView::Tick, ticked)
            &&& ticked.right_step(EventView::Received(packet.payload), arrived)
            &&& answer is Some
            &&& arrived.left_step(EventView::Received(answer->Some_0.payload), confirmed)
            &&& confirmed.left.state.unacked is None
            &&& confirmed.right.written == confirmed.left.read
        }),
{
    let packet = session.left.state.unacked->Some_0;
    let ticked = Session { left: session.left.after(EventView::Tick), ..session };
    sender_step_keeps(session.left, session.right, EventView::Tick);
    sender_step_keeps(ticked.right, ticked.left, EventView::Received(packet.payload));
}

/// What holds of one side of a session holds of the other.
pub proof fn sides_are_alike(session: Session, event: EventView, next: Session)
    ensures
        session.swapped().inv() == session.inv(),
        session.swapped().fresh() == session.fresh(),
        session.swapped().left_step(event, next.swapped()) == session.right_step(event, next),
        session.swapped().right_step(event, next.swapped()) == session.left_step(event, next),
{
}

/// A payload that arrives again at once changes nothing and writes nothing: only a confirmation
/// may go out once more.
pub proof fn repeated_payloads_are_harmless(state: TransportView, payload: PayloadView)
    ensures
        ({
            let event = EventView::Received(payload);
            let next = state.after(event);
            &&& next.after(event) == next
            &&& next.reaction(event).write is None
            &&& next.reaction(event).send == state.reaction(event).send
        }),
{
}

/// A chunk that is not the next one in order never reaches the socket and leaves the endpoint as
/// it was.
pub proof fn other_chunks_are_ignored(state: TransportView, idx: nat, data: Seq<u8>)
    requires
        idx != state.last_in + 1,
    ensures
        state.after(EventView::Received(PayloadView::Data { idx, data })) == state,
        state.reaction(EventView::Received(PayloadView::Data { idx, data })).write is None,
{
}

/// A payload that an endpoint does not wait for leaves it as it was, and nothing is done about it.
pub proof fn unexpected_payloads_are_ignored(state: TransportView, payload: PayloadView)
    requires
        !state.expects(payload),
    ensures
        state.after(EventView::Received(payload)) == state,
        state.reaction(EventView::Received(payload)) == (ActionView { write: None, send: None }),
{
}

/// A confirmation of any chunk but the last one that was sent leaves the endpoint as it was.
pub proof fn late_confirmations_are_ignored(state: TransportView, idx: nat)
    requires
        idx != state.last_out,
    ensures
        state.after(EventView::Received(PayloadView::Ack { idx })) == state,
        state.reaction(EventView::Received(PayloadView::Ack { idx })) == (ActionView {
            write: None,
            send: None,
        }),
{
}

/// Every packet of an endpoint that starts with nothing, or with a packet to its own peer, goes
/// to that peer and belongs to that connection.
pub proof fn packets_are_addressed_to_the_peer(state: TransportView, event: EventView)
    requires
        state.unacked matches Some(packet) ==> packet.recipient == state.peer && packet.stream
            == state.stream,
    ensures
        state.after(event).peer == state.peer,
        state.after(event).stream == state.stream,
        state.after(event).unacked matches Some(packet) ==> packet.recipient == state.peer
            && packet.stream == state.stream,
        state.reaction(event).send matches Some(packet) ==> packet.recipient == state.peer
            && packet.stream == state.stream,
{
}

} // verus!
