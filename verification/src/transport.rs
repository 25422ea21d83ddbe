//! Reliable, ordered delivery of one byte stream per direction over a network that may lose,
//! repeat and reorder packets.
//!
//! Each endpoint sends one chunk at a time and repeats it until the peer has confirmed it.

use vstd::prelude::*;
use vstd::slice::{slice_subrange, slice_to_vec};

use crate::identity::Identity;
use crate::packet::{ConnectionId, Packet, PacketView, Payload, PayloadView};

verus! {

/// How long to wait for a confirmation before a packet is sent again, in milliseconds.
pub const TIMEOUT: u64 = 2000;

/// How many bytes are read from a socket at once, and go into one chunk, at most.
pub const CHUNK_LEN: usize = 500;

/// One endpoint of a connection.
#[derive(Debug)]
pub struct Transport {
    peer: Identity,
    stream_id: ConnectionId,
    last_out_msg_id: usize,
    last_in_msg_id: usize,
    unack_msg: Option<Packet>,
}

/// The mathematical content of a [`Transport`].
#[verifier::ext_equal]
pub struct TransportView {
    /// Where every packet of this endpoint goes.
    pub peer: Seq<u8>,
    /// The connection that every packet of this endpoint belongs to.
    pub stream: Seq<u8>,
    /// The number of the last chunk that was sent.
    pub last_out: nat,
    /// The number of the last chunk that was accepted.
    pub last_in: nat,
    /// The packet that has not been confirmed yet.
    pub unacked: Option<PacketView>,
}

/// What happens to an endpoint.
#[derive(Debug)]
pub enum TransportEvent {
    /// These bytes were read from the local socket.
    Read(Vec<u8>),
    /// The peer's payload came in.
    Received(Payload),
    /// The resend interval elapsed.
    Tick,
}

/// The mathematical content of a [`TransportEvent`].
#[verifier::ext_equal]
pub enum EventView {
    Read(Seq<u8>),
    Received(PayloadView),
    Tick,
}

/// What an endpoint does about an event; [`TransportAction::steps`] says in which order.
#[derive(Debug)]
pub struct TransportAction {
    /// Bytes to write to the local socket.
    pub write: Option<Vec<u8>>,
    /// A packet to send to the peer.
    pub send: Option<Packet>,
}

/// The mathematical content of a [`TransportAction`].
#[verifier::ext_equal]
pub struct ActionView {
    pub write: Option<Seq<u8>>,
    pub send: Option<PacketView>,
}

/// One thing that an endpoint does.
#[derive(Debug)]
pub enum TransportStep {
    /// Write these bytes to the local socket.
    Write(Vec<u8>),
    /// Send this packet to the peer.
    Send(Packet),
}

/// The mathematical content of a [`TransportStep`].
#[verifier::ext_equal]
pub enum StepView {
    Write(Seq<u8>),
    Send(PacketView),
}

impl View for Transport {
    type V = TransportView;

    closed spec fn view(&self) -> TransportView {
        TransportView {
            peer: self.peer@,
            stream: self.stream_id@,
            last_out: self.last_out_msg_id as nat,
            last_in: self.last_in_msg_id as nat,
            unacked: match self.unack_msg {
                Some(packet) => Some(packet@),
                None => None,
            },
        }
    }
}

impl View for TransportEvent {
    type V = EventView;

    open spec fn view(&self) -> EventView {
        match *self {
            TransportEvent::Read(bytes) => EventView::Read(bytes@),
            TransportEvent::Received(payload) => EventView::Received(payload@),
            TransportEvent::Tick => EventView::Tick,
        }
    }
}

impl View for TransportStep {
    type V = StepView;

    open spec fn view(&self) -> StepView {
        match *self {
            TransportStep::Write(bytes) => StepView::Write(bytes@),
            TransportStep::Send(packet) => StepView::Send(packet@),
        }
    }
}

impl View for TransportAction {
    type V = ActionView;

    open spec fn view(&self) -> ActionView {
        ActionView {
            write: match self.write {
                Some(bytes) => Some(bytes@),
                None => None,
            },
            send: match self.send {
                Some(packet) => Some(packet@),
                None => None,
            },
        }
    }
}

impl ActionView {
    /// The steps of an action in order: the write comes before the send.
    pub open spec fn steps(self) -> Seq<StepView> {
        let write = match self.write {
            Some(bytes) => seq![StepView::Write(bytes)],
            None => Seq::empty(),
        };
        let send = match self.send {
            Some(packet) => seq![StepView::Send(packet)],
            None => Seq::empty(),
        };
        write + send
    }
}

/// The mathematical content of a list of steps.
pub open spec fn steps_view(steps: Seq<TransportStep>) -> Seq<StepView> {
    steps.map_values(|step: TransportStep| step@)
}

impl TransportAction {
    /// The steps of the action, in the order in which they have to be taken: a chunk is
    /// confirmed only once it has been written.
    pub fn steps(self) -> (steps: Vec<TransportStep>)
        ensures
            steps_view(steps@) == self@.steps(),
    {
        let ghost action = self@;
        let mut steps: Vec<TransportStep> = Vec::new();
        if let Some(bytes) = self.write {
            steps.push(TransportStep::Write(bytes));
        }
        if let Some(packet) = self.send {
            steps.push(TransportStep::Send(packet));
        }
        assert(steps_view(steps@) =~= action.steps());
        steps
    }
}

impl TransportEvent {
    /// The event of having read the first `read` bytes of `buffer` from the local socket.
    pub fn of_read(buffer: &[u8; CHUNK_LEN], read: usize) -> (event: TransportEvent)
        requires
            read <= CHUNK_LEN,
        ensures
            event@ == EventView::Read(buffer@.take(read as int)),
            event@.fits_chunk(),
    {
        let bytes: &[u8] = buffer;
        let data = slice_to_vec(slice_subrange(bytes, 0, read));
        assert(data@ =~= buffer@.take(read as int));
        TransportEvent::Read(data)
    }
}

impl EventView {
    /// Whether the bytes that were read, if any, are no more than a chunk holds.
    pub open spec fn fits_chunk(self) -> bool {
        self matches EventView::Read(data) ==> data.len() <= CHUNK_LEN
    }
}

impl TransportView {
    /// The packet that carries `payload` to the peer.
    pub open spec fn packet(self, payload: PayloadView) -> PacketView {
        PacketView { recipient: self.peer, stream: self.stream, payload }
    }

    /// Whether the endpoint can handle `event`: it reads from its socket only while every packet
    /// is confirmed, and both chunk counters fit their machine integers.
    pub open spec fn accepts(self, event: EventView) -> bool {
        match event {
            EventView::Read(_) => self.unacked is None && self.last_out < usize::MAX,
            EventView::Received(PayloadView::Data { idx, .. }) =>
                idx == self.last_in || self.last_in < usize::MAX,
            _ => true,
        }
    }

    /// Whether `payload` is one that the endpoint waits for: the next chunk or the last one again,
    /// the confirmation of its own last chunk, or the opening of the connection.
    pub open spec fn expects(self, payload: PayloadView) -> bool {
        match payload {
            PayloadView::Data { idx, .. } => idx == self.last_in || idx == self.last_in + 1,
            PayloadView::Ack { idx } => idx == self.last_out,
            PayloadView::Establish { .. } => true,
        }
    }

    /// The endpoint after `event`.
    pub open spec fn after(self, event: EventView) -> TransportView {
        match event {
            EventView::Read(data) => {
                let idx = self.last_out + 1;
                TransportView {
                    last_out: idx,
                    unacked: Some(self.packet(PayloadView::Data { idx, data })),
                    ..self
                }
            },
            EventView::Received(PayloadView::Data { idx, .. }) if idx == self.last_in + 1 =>
                TransportView { last_in: idx, ..self },
            EventView::Received(PayloadView::Ack { idx }) if idx == self.last_out =>
                TransportView { unacked: None, ..self },
            _ => self,
        }
    }

    /// What the endpoint does about `event`.
    pub open spec fn reaction(self, event: EventView) -> ActionView {
        let next = self.after(event);
        match event {
            // A chunk goes out as soon as it has been read, and again at every tick.
            EventView::Read(_) | EventView::Tick => ActionView { write: None, send: next.unacked },
            // Only the next chunk in order reaches the socket. The last one that did is
            // confirmed again: its confirmation may have been lost.
            EventView::Received(PayloadView::Data { idx, data }) => ActionView {
                write: if idx == self.last_in + 1 { Some(data) } else { None },
                send: if idx == next.last_in {
                    Some(self.packet(PayloadView::Ack { idx }))
                } else {
                    None
                },
            },
            EventView::Received(PayloadView::Establish { .. }) => ActionView {
                write: None,
                send: Some(self.packet(PayloadView::Ack { idx: 0 })),
            },
            EventView::Received(PayloadView::Ack { .. }) => ActionView { write: None, send: None },
        }
    }
}

impl Transport {
    /// An endpoint of the connection `stream_id` to `peer`, before any chunk. The packet
    /// `init_pkg` goes out at every tick until the peer confirms chunk zero.
    pub fn new(peer: Identity, stream_id: ConnectionId, init_pkg: Option<Packet>) -> (transport:
        Transport)
        ensures
            transport@ == (TransportView {
                peer: peer@,
                stream: stream_id@,
                last_out: 0,
                last_in: 0,
                unacked: match init_pkg {
                    Some(packet) => Some(packet@),
                    None => None,
                },
            }),
    {
        Transport {
            peer,
            stream_id,
            last_out_msg_id: 0,
            last_in_msg_id: 0,
            unack_msg: init_pkg,
        }
    }

    /// Whether the endpoint may read from its socket: every packet it sent is confirmed.
    pub fn can_read(&self) -> (ready: bool)
        ensures
            ready == (self@.unacked is None),
    {
        self.unack_msg.is_none()
    }

    /// Whether `payload` is one that the endpoint waits for. It ignores every other.
    pub fn expects(&self, payload: &Payload) -> (expected: bool)
        ensures
            expected == self@.expects(payload@),
    {
        match payload {
            Payload::Data { idx, .. } => {
                *idx == self.last_in_msg_id || *idx > 0 && *idx - 1 == self.last_in_msg_id
            },
            Payload::Ack { idx } => *idx == self.last_out_msg_id,
            Payload::Establish { .. } => true,
        }
    }

    /// Whether [`reliable_transport`] can handle `event` next.
    pub fn can_handle(&self, event: &TransportEvent) -> (ready: bool)
        ensures
            ready == self@.accepts(event@),
    {
        match event {
            TransportEvent::Read(_) => {
                self.unack_msg.is_none() && self.last_out_msg_id < usize::MAX
            },
            TransportEvent::Received(Payload::Data { idx, .. }) => {
                *idx == self.last_in_msg_id || self.last_in_msg_id < usize::MAX
            },
            _ => true,
        }
    }
}

/// Advances an endpoint by one event and says what to do about it.
pub fn reliable_transport(transport: &mut Transport, event: TransportEvent) -> (action:
    TransportAction)
    requires
        old(transport)@.accepts(event@),
    ensures
        final(transport)@ == old(transport)@.after(event@),
        action@ == old(transport)@.reaction(event@),
{
    let peer = transport.peer;
    let stream_id = transport.stream_id;
    match event {
        TransportEvent::Read(data) => {
            transport.last_out_msg_id = transport.last_out_msg_id + 1;
            let packet = Packet {
                recipient: peer,
                stream: stream_id,
                payload: Payload::Data { idx: transport.last_out_msg_id, data },
            };
            transport.unack_msg = Some(packet.clone());
            TransportAction { write: None, send: Some(packet) }
        },
        TransportEvent::Received(Payload::Data { idx, data }) => {
            if transport.last_in_msg_id == idx {
                let ack = Packet {
                    recipient: peer,
                    stream: stream_id,
                    payload: Payload::Ack { idx },
                };
                TransportAction { write: None, send: Some(ack) }
            } else if transport.last_in_msg_id + 1 == idx {
                transport.last_in_msg_id = idx;
                let ack = Packet {
                    recipient: peer,
                    stream: stream_id,
                    payload: Payload::Ack { idx },
                };
                TransportAction { write: Some(data), send: Some(ack) }
            } else {
                TransportAction { write: None, send: None }
            }
        },
        TransportEvent::Received(Payload::Ack { idx }) => {
            if idx == transport.last_out_msg_id {
                transport.unack_msg = None;
            }
            TransportAction { write: None, send: None }
        },
        TransportEvent::Received(Payload::Establish { .. }) => {
            let ack = Packet {
                recipient: peer,
                stream: stream_id,
                payload: Payload::Ack { idx: 0 },
            };
            TransportAction { write: None, send: Some(ack) }
        },
        TransportEvent::Tick => {
            let send = match &transport.unack_msg {
                Some(packet) => Some(packet.clone()),
                None => None,
            };
            TransportAction { write: None, send }
        },
    }
}

/// A confirmation is never answered: whatever it confirms, nothing is written and nothing is sent.
/// It frees the endpoint to read on if it confirms the last chunk, and changes nothing else.
pub proof fn confirmations_are_never_answered(state: TransportView, idx: nat)
    ensures
        ({
            let event = EventView::Received(PayloadView::Ack { idx });
            let next = state.after(event);
            &&& state.accepts(event)
            &&& state.reaction(event).send is None
            &&& state.reaction(event).write is None
            &&& state.reaction(event).steps().len() == 0
            &&& next.unacked == if idx == state.last_out {
                None
            } else {
                state.unacked
            }
            &&& next.peer == state.peer
            &&& next.stream == state.stream
            &&& next.last_out == state.last_out
            &&& next.last_in == state.last_in
        }),
{
}

/// A chunk is written if and only if it is the next one, and answered if and only if it is the
/// last one that has been written by then. The answer confirms that chunk, to the peer and on the
/// connection. What the endpoint has sent itself is not touched.
pub proof fn written_chunks_are_confirmed(state: TransportView, idx: nat, data: Seq<u8>)
    ensures
        ({
            let event = EventView::Received(PayloadView::Data { idx, data });
            let next = state.after(event);
            let action = state.reaction(event);
            &&& state.last_in < usize::MAX ==> state.accepts(event)
            &&& idx == state.last_in ==> state.accepts(event)
            &&& action.write is Some <==> idx == state.last_in + 1
            &&& action.write matches Some(bytes) ==> bytes == data
            &&& action.send is Some <==> idx == state.last_in || idx == state.last_in + 1
            &&& action.send matches Some(packet) ==> {
                &&& packet.recipient == state.peer
                &&& packet.stream == state.stream
                &&& packet.payload == PayloadView::Ack { idx }
            }
            &&& next.last_in == if idx == state.last_in + 1 {
                idx
            } else {
                state.last_in
            }
            &&& next.last_out == state.last_out
            &&& next.unacked == state.unacked
            &&& next.peer == state.peer
            &&& next.stream == state.stream
        }),
{
}

/// An opening that comes in is confirmed as chunk zero, to the peer and on the connection, and
/// changes nothing.
pub proof fn openings_are_confirmed(state: TransportView, sender: Seq<u8>)
    ensures
        ({
            let event = EventView::Received(PayloadView::Establish { sender });
            let action = state.reaction(event);
            &&& state.accepts(event)
            &&& state.after(event) == state
            &&& action.write is None
            &&& action.send matches Some(packet) && packet.recipient == state.peer
                && packet.stream == state.stream && packet.payload == PayloadView::Ack { idx: 0 }
        }),
{
}

/// Every tick sends the packet that is not confirmed, as it is, and nothing if there is none. It
/// changes nothing.
pub proof fn ticks_send_what_is_not_confirmed(state: TransportView)
    ensures
        state.accepts(EventView::Tick),
        state.after(EventView::Tick) == state,
        state.reaction(EventView::Tick).write is None,
        state.reaction(EventView::Tick).send == state.unacked,
{
}

/// What is read is sent at once to the peer, as the next chunk of the connection, and every tick
/// sends the same packet again. What came in from the peer is not touched. An endpoint with
/// nothing to confirm can always read on, and one with something to confirm cannot.
pub proof fn reads_are_sent_at_once(state: TransportView, data: Seq<u8>)
    ensures
        ({
            let event = EventView::Read(data);
            let next = state.after(event);
            let action = state.reaction(event);
            &&& state.accepts(event) <==> state.unacked is None && state.last_out < usize::MAX
            &&& action.write is None
            &&& action.send matches Some(packet) && packet.recipient == state.peer
                && packet.stream == state.stream && packet.payload == PayloadView::Data {
                idx: (state.last_out + 1) as nat,
                data,
            }
            &&& next.reaction(EventView::Tick).send == action.send
            &&& next.last_out == state.last_out + 1
            &&& next.last_in == state.last_in
            &&& next.peer == state.peer
            &&& next.stream == state.stream
        }),
{
}

/// The steps of an action are its write, if any, and then its packet, if any.
pub proof fn writes_come_before_packets(action: ActionView)
    ensures
        action.write matches Some(bytes) ==> action.steps().len() >= 1 && action.steps()[0]
            == StepView::Write(bytes),
        action.send matches Some(packet) ==> action.steps().len() >= 1 && action.steps().last()
            == StepView::Send(packet),
        action.steps().len() == (if action.write is Some {
            1int
        } else {
            0
        }) + (if action.send is Some {
            1int
        } else {
            0
        }),
{
}

/// A payload that an endpoint waits for is a chunk that it answers, the confirmation of its own
/// last chunk, or an opening.
pub proof fn expected_payloads_matter(state: TransportView, payload: PayloadView)
    ensures
        match payload {
            PayloadView::Data { .. } => state.expects(payload) <==> state.reaction(
                EventView::Received(payload),
            ).send is Some,
            PayloadView::Ack { idx } => state.expects(payload) <==> idx == state.last_out,
            PayloadView::Establish { .. } => state.expects(payload),
        },
{
}

} // verus!
