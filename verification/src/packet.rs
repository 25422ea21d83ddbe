//! The packets that two endpoints exchange.

use vstd::prelude::*;

use crate::identity::Identity;

verus! {

/// Names one proxied connection at both of its ends.
pub type ConnectionId = [u8; 32];

/// A payload on its way to a recipient.
#[derive(Debug)]
pub struct Packet {
    pub recipient: Identity,
    pub stream: ConnectionId,
    pub payload: Payload,
}

/// What one endpoint of a connection has to say to the other.
#[derive(Debug)]
pub enum Payload {
    /// Opens the connection and tells the service where to send its answers.
    Establish { sender: Identity },
    /// The `idx`-th chunk of the byte stream, counted from one.
    Data { idx: usize, data: Vec<u8> },
    /// Confirms that the chunk `idx` has arrived.
    Ack { idx: usize },
}

/// The mathematical content of a [`Payload`].
#[verifier::ext_equal]
pub enum PayloadView {
    Establish { sender: Seq<u8> },
    Data { idx: nat, data: Seq<u8> },
    Ack { idx: nat },
}

/// The mathematical content of a [`Packet`].
#[verifier::ext_equal]
pub struct PacketView {
    pub recipient: Seq<u8>,
    pub stream: Seq<u8>,
    pub payload: PayloadView,
}

impl View for Payload {
    type V = PayloadView;

    open spec fn view(&self) -> PayloadView {
        match *self {
            Payload::Establish { sender } => PayloadView::Establish { sender: sender@ },
            Payload::Data { idx, data } => PayloadView::Data { idx: idx as nat, data: data@ },
            Payload::Ack { idx } => PayloadView::Ack { idx: idx as nat },
        }
    }
}

impl View for Packet {
    type V = PacketView;

    open spec fn view(&self) -> PacketView {
        PacketView { recipient: self.recipient@, stream: self.stream@, payload: self.payload@ }
    }
}

impl Clone for Payload {
    fn clone(&self) -> (copy: Payload)
        ensures
            copy@ == self@,
    {
        match self {
            Payload::Establish { sender } => Payload::Establish { sender: *sender },
            Payload::Data { idx, data } => {
                let copied: Vec<u8> = data.clone();
                assert(copied@ =~= data@);
                Payload::Data { idx: *idx, data: copied }
            },
            Payload::Ack { idx } => Payload::Ack { idx: *idx },
        }
    }
}

impl Clone for Packet {
    fn clone(&self) -> (copy: Packet)
        ensures
            copy@ == self@,
    {
        Packet { recipient: self.recipient, stream: self.stream, payload: self.payload.clone() }
    }
}

/// What a packet that opens a connection looks like before its sender is filled in.
pub open spec fn opening(recipient: Seq<u8>, stream: Seq<u8>) -> PacketView {
    PacketView {
        recipient,
        stream,
        payload: PayloadView::Establish { sender: Seq::new(64, |i: int| 0u8) },
    }
}

/// `packet` as `us` sends it: only a packet that opens a connection names its sender.
pub open spec fn signed(packet: PacketView, us: Seq<u8>) -> PacketView {
    PacketView {
        payload: match packet.payload {
            PayloadView::Establish { .. } => PayloadView::Establish { sender: us },
            other => other,
        },
        ..packet
    }
}

impl Packet {
    /// The packet that opens the connection `stream` to `recipient`, its sender left blank.
    pub fn establish(recipient: Identity, stream: ConnectionId) -> (packet: Packet)
        ensures
            packet@ == opening(recipient@, stream@),
    {
        Packet { recipient, stream, payload: Payload::Establish { sender: Default::default() } }
    }

    /// Fills in `us` as the sender of a packet that opens a connection.
    pub fn sign(self, us: Identity) -> (packet: Packet)
        ensures
            packet@ == signed(self@, us@),
    {
        let mut packet = self;
        if let Payload::Establish { .. } = packet.payload {
            packet.payload = Payload::Establish { sender: us };
        }
        packet
    }
}

/// To sign a packet changes nothing but the sender of an opening: it goes to the same recipient
/// and belongs to the same connection, and chunks and confirmations stay as they are. The last
/// signature counts.
pub proof fn signing_changes_the_sender_alone(packet: PacketView, us: Seq<u8>, again: Seq<u8>)
    ensures
        signed(packet, us).recipient == packet.recipient,
        signed(packet, us).stream == packet.stream,
        packet.payload is Establish ==> signed(packet, us).payload == (PayloadView::Establish {
            sender: us,
        }),
        packet.payload !is Establish ==> signed(packet, us) == packet,
        signed(signed(packet, us), again) == signed(packet, again),
{
}

/// An opening goes to the recipient and opens the connection that it was made for, and who signs
/// it is its sender.
pub proof fn openings_are_for_their_recipient(recipient: Seq<u8>, stream: Seq<u8>, us: Seq<u8>)
    ensures
        opening(recipient, stream).recipient == recipient,
        opening(recipient, stream).stream == stream,
        opening(recipient, stream).payload matches PayloadView::Establish { sender }
            && sender.len() == 64 && (forall|i: int| 0 <= i < 64 ==> sender[i] == 0),
        signed(opening(recipient, stream), us) == (PacketView {
            recipient,
            stream,
            payload: PayloadView::Establish { sender: us },
        }),
{
}

} // verus!
