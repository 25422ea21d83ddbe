//! The link to the Nym client, which carries packets to the mixnet and messages back.
//!
//! The client answers each packet with a message of its own. The link takes the first message
//! after a packet for that answer, whatever it holds, and sends no other packet before it.

use vstd::prelude::*;

use crate::codec::{
    fits_message, packet_bytes, packets_have_this_layout, payload_bytes,
    payloads_have_this_layout,
};
use crate::identity::Identity;
use crate::message::{packet_to_message, Message, MessageView};
use crate::packet::{signed, Packet, PacketView, Payload, PayloadView};

verus! {

/// The state of a link.
#[derive(Debug)]
pub struct Link {
    us: Option<Identity>,
    awaiting: bool,
}

/// The mathematical content of a [`Link`].
#[verifier::ext_equal]
pub struct LinkView {
    /// Who opens the connections, if this side of the mixnet opens any.
    pub us: Option<Seq<u8>>,
    /// Whether the client still has to answer the last packet.
    pub awaiting: bool,
}

/// What happens at a link.
#[derive(Debug)]
pub enum LinkEvent {
    /// An endpoint has a packet to send.
    Outgoing(Packet),
    /// The client sent a message.
    Incoming(Message),
}

/// The mathematical content of a [`LinkEvent`].
#[verifier::ext_equal]
pub enum LinkEventView {
    Outgoing(PacketView),
    Incoming(MessageView),
}

/// What a link does about an event.
#[derive(Debug)]
pub enum LinkAction {
    /// Send this message to the client.
    Send(Message),
    /// Do nothing: the client has answered the last packet.
    Ignore,
    /// Take this message to the connection that it belongs to.
    Route(Message),
}

/// The mathematical content of a [`LinkAction`].
#[verifier::ext_equal]
pub enum LinkActionView {
    Send(MessageView),
    Ignore,
    Route(MessageView),
}

impl View for Link {
    type V = LinkView;

    closed spec fn view(&self) -> LinkView {
        LinkView {
            us: match self.us {
                Some(us) => Some(us@),
                None => None,
            },
            awaiting: self.awaiting,
        }
    }
}

impl View for LinkEvent {
    type V = LinkEventView;

    open spec fn view(&self) -> LinkEventView {
        match *self {
            LinkEvent::Outgoing(packet) => LinkEventView::Outgoing(packet@),
            LinkEvent::Incoming(msg) => LinkEventView::Incoming(msg@),
        }
    }
}

impl View for LinkAction {
    type V = LinkActionView;

    open spec fn view(&self) -> LinkActionView {
        match *self {
            LinkAction::Send(msg) => LinkActionView::Send(msg@),
            LinkAction::Ignore => LinkActionView::Ignore,
            LinkAction::Route(msg) => LinkActionView::Route(msg@),
        }
    }
}

impl LinkView {
    /// `packet` as it leaves: where this side opens connections, the packet that opens one names
    /// its sender.
    pub open spec fn outgoing(self, packet: PacketView) -> PacketView {
        match self.us {
            Some(us) => signed(packet, us),
            None => packet,
        }
    }

    /// Whether the link can handle `event`: it takes a packet only while no answer is due, and
    /// only one whose bytes fit into a vector.
    pub open spec fn accepts(self, event: LinkEventView) -> bool {
        match event {
            LinkEventView::Outgoing(packet) => !self.awaiting && fits_message(packet),
            LinkEventView::Incoming(_) => true,
        }
    }

    /// The link after `event`.
    pub open spec fn after(self, event: LinkEventView) -> LinkView {
        LinkView { awaiting: event is Outgoing, ..self }
    }

    /// What the link does about `event`.
    pub open spec fn reaction(self, event: LinkEventView) -> LinkActionView {
        match event {
            LinkEventView::Outgoing(packet) => LinkActionView::Send(
                MessageView::Binary(packet_bytes(self.outgoing(packet))),
            ),
            LinkEventView::Incoming(msg) => if self.awaiting {
                LinkActionView::Ignore
            } else {
                LinkActionView::Route(msg)
            },
        }
    }
}

impl Link {
    /// The link of a proxy, which opens connections in the name of `us`.
    pub fn of_proxy(us: Identity) -> (link: Link)
        ensures
            link@ == (LinkView { us: Some(us@), awaiting: false }),
    {
        Link { us: Some(us), awaiting: false }
    }

    /// The link of a hidden service, which opens no connections.
    pub fn of_service() -> (link: Link)
        ensures
            link@ == (LinkView { us: None, awaiting: false }),
    {
        Link { us: None, awaiting: false }
    }

    /// Whether the client still has to answer the last packet; until then no other may be sent.
    pub fn is_awaiting(&self) -> (awaiting: bool)
        ensures
            awaiting == self@.awaiting,
    {
        self.awaiting
    }

    /// Whether [`Link::handle`] can handle `event` next.
    pub fn can_handle(&self, event: &LinkEvent) -> (ready: bool)
        ensures
            ready == self@.accepts(event@),
    {
        match event {
            LinkEvent::Outgoing(packet) => match &packet.payload {
                Payload::Data { data, .. } => {
                    !self.awaiting && data.len() <= isize::MAX as usize - 116
                },
                _ => !self.awaiting,
            },
            LinkEvent::Incoming(_) => true,
        }
    }

    /// Advances the link by one event and says what to do about it.
    pub fn handle(&mut self, event: LinkEvent) -> (action: LinkAction)
        requires
            old(self)@.accepts(event@),
        ensures
            final(self)@ == old(self)@.after(event@),
            action@ == old(self)@.reaction(event@),
    {
        match event {
            LinkEvent::Outgoing(packet) => {
                self.awaiting = true;
                let packet = match self.us {
                    Some(us) => packet.sign(us),
                    None => packet,
                };
                LinkAction::Send(packet_to_message(&packet))
            },
            LinkEvent::Incoming(msg) => {
                if self.awaiting {
                    self.awaiting = false;
                    LinkAction::Ignore
                } else {
                    LinkAction::Route(msg)
                }
            },
        }
    }
}

/// Everything that happens at one link, from its first event on.
#[verifier::ext_equal]
pub struct Traffic {
    pub start: LinkView,
    pub events: Seq<LinkEventView>,
}

impl Traffic {
    /// The link after the first `n` events.
    pub open spec fn state(self, n: nat) -> LinkView
        decreases n,
    {
        if n == 0 {
            self.start
        } else {
            self.state((n - 1) as nat).after(self.events[n - 1])
        }
    }

    /// What the link does about the event number `i`, counted from zero.
    pub open spec fn action(self, i: int) -> LinkActionView {
        self.state(i as nat).reaction(self.events[i])
    }

    /// The packets that the endpoints had to send, in order.
    pub open spec fn packets(self, n: nat) -> Seq<PacketView>
        decreases n,
    {
        if n == 0 {
            Seq::empty()
        } else {
            let before = self.packets((n - 1) as nat);
            match self.events[n - 1] {
                LinkEventView::Outgoing(packet) => before.push(packet),
                LinkEventView::Incoming(_) => before,
            }
        }
    }

    /// The messages that were sent to the client, in order.
    pub open spec fn sent(self, n: nat) -> Seq<MessageView>
        decreases n,
    {
        if n == 0 {
            Seq::empty()
        } else {
            let before = self.sent((n - 1) as nat);
            match self.action(n - 1) {
                LinkActionView::Send(msg) => before.push(msg),
                _ => before,
            }
        }
    }

    /// Traffic from the first event of a link on, in which each event comes while the link can
    /// handle it.
    pub open spec fn valid(self) -> bool {
        &&& !self.start.awaiting
        &&& forall|i: int|
            0 <= i < self.events.len() ==> self.state(i as nat).accepts(#[trigger] self.events[i])
    }
}

/// The messages that carry `packets` to the mixnet, one for each.
pub open spec fn packet_messages(packets: Seq<PacketView>) -> Seq<MessageView> {
    packets.map_values(|packet: PacketView| MessageView::Binary(packet_bytes(packet)))
}

/// Each packet is sent to the client in one message, in the order in which the packets came, and
/// nothing else is sent.
pub proof fn each_packet_is_one_message(traffic: Traffic, n: nat)
    requires
        traffic.valid(),
        n <= traffic.events.len(),
    ensures
        traffic.state(n).us == traffic.start.us,
        traffic.sent(n) == packet_messages(
            traffic.packets(n).map_values(|packet: PacketView| traffic.start.outgoing(packet)),
        ),
    decreases n,
{
    let named = |packets: Seq<PacketView>|
        packets.map_values(|packet: PacketView| traffic.start.outgoing(packet));
    if n == 0 {
        assert(packet_messages(named(traffic.packets(0))) =~= Seq::<MessageView>::empty());
    } else {
        let m = (n - 1) as nat;
        each_packet_is_one_message(traffic, m);
        if let LinkEventView::Outgoing(packet) = traffic.events[m as int] {
            assert(packet_messages(named(traffic.packets(n))) =~= packet_messages(
                named(traffic.packets(m)),
            ).push(MessageView::Binary(packet_bytes(traffic.start.outgoing(packet)))));
        }
    }
}

/// Where the packets are chunks and confirmations, their messages carry them unaltered, on either
/// side.
pub proof fn chunks_and_confirmations_leave_unaltered(traffic: Traffic, n: nat)
    requires
        traffic.valid(),
        n <= traffic.events.len(),
        forall|i: int|
            0 <= i < traffic.packets(n).len() ==> (
            #[trigger] traffic.packets(n)[i]).payload !is Establish,
    ensures
        traffic.sent(n) == packet_messages(traffic.packets(n)),
{
    each_packet_is_one_message(traffic, n);
    assert(traffic.packets(n).map_values(|packet: PacketView| traffic.start.outgoing(packet))
        =~= traffic.packets(n));
}

/// A message of the client is ignored if it comes right after a packet, and routed as it is
/// otherwise. No packet comes right after another: the link waits for the answer.
pub proof fn only_answers_are_ignored(traffic: Traffic, i: int)
    requires
        traffic.valid(),
        0 <= i < traffic.events.len(),
    ensures
        ({
            let answer = i > 0 && traffic.events[i - 1] is Outgoing;
            match traffic.events[i] {
                LinkEventView::Incoming(msg) => traffic.action(i) == if answer {
                    LinkActionView::Ignore
                } else {
                    LinkActionView::Route(msg)
                },
                LinkEventView::Outgoing(_) => !answer,
            }
        }),
{
    assert(traffic.state(i as nat).accepts(traffic.events[i]));
}

/// A link takes every packet that fits a message while no answer is due, and every message of the
/// client at any time. It awaits an answer exactly after a packet, and never forgets who it is.
pub proof fn links_take_packets_and_messages(link: LinkView, packet: PacketView, msg: MessageView)
    ensures
        packet.payload matches PayloadView::Data { data, .. } ==> (link.accepts(
            LinkEventView::Outgoing(packet),
        ) <==> !link.awaiting && data.len() <= isize::MAX - 116),
        packet.payload !is Data ==> (link.accepts(LinkEventView::Outgoing(packet))
            <==> !link.awaiting),
        link.accepts(LinkEventView::Incoming(msg)),
        link.after(LinkEventView::Outgoing(packet)).awaiting,
        !link.after(LinkEventView::Incoming(msg)).awaiting,
        link.after(LinkEventView::Outgoing(packet)).us == link.us,
        link.after(LinkEventView::Incoming(msg)).us == link.us,
{
}

/// Whatever a link is handed goes to the recipient of the packet: the first 64 bytes of the
/// message are the recipient's keys, and the next 32 its connection.
pub proof fn packets_reach_their_recipient(link: LinkView, packet: PacketView)
    requires
        packet.recipient.len() == 64,
        packet.stream.len() == 32,
    ensures
        link.reaction(LinkEventView::Outgoing(packet)) matches LinkActionView::Send(
            MessageView::Binary(bytes),
        ) && bytes.take(64) == packet.recipient && bytes.subrange(64, 96) == packet.stream,
{
    packets_have_this_layout(link.outgoing(packet));
}

/// A proxy opens a connection in its own name: the message that it sends for an opening is the
/// recipient's keys, the connection, the kind of an opening and its own keys, whoever was the
/// sender before. A hidden service leaves the sender as it is.
pub proof fn openings_name_the_proxy(
    us: Seq<u8>,
    recipient: Seq<u8>,
    stream: Seq<u8>,
    sender: Seq<u8>,
)
    ensures
        ({
            let packet = PacketView {
                recipient,
                stream,
                payload: PayloadView::Establish { sender },
            };
            let proxy = LinkView { us: Some(us), awaiting: false };
            let service = LinkView { us: None, awaiting: false };
            &&& proxy.reaction(LinkEventView::Outgoing(packet)) == LinkActionView::Send(
                MessageView::Binary(recipient + stream + seq![0u8, 0, 0, 0] + us),
            )
            &&& service.reaction(LinkEventView::Outgoing(packet)) == LinkActionView::Send(
                MessageView::Binary(recipient + stream + seq![0u8, 0, 0, 0] + sender),
            )
        }),
{
    payloads_have_this_layout(us, 0, Seq::empty());
    payloads_have_this_layout(sender, 0, Seq::empty());
    assert(recipient + stream + (seq![0u8, 0, 0, 0] + us) =~= recipient + stream + seq![
        0u8,
        0,
        0,
        0,
    ] + us);
    assert(recipient + stream + (seq![0u8, 0, 0, 0] + sender) =~= recipient + stream + seq![
        0u8,
        0,
        0,
        0,
    ] + sender);
}

/// Chunks and confirmations leave as they are, on either side.
pub proof fn other_packets_are_sent_as_they_are(link: LinkView, packet: PacketView)
    requires
        packet.payload !is Establish,
    ensures
        link.reaction(LinkEventView::Outgoing(packet)) == LinkActionView::Send(
            MessageView::Binary(packet.recipient + packet.stream + payload_bytes(packet.payload)),
        ),
{
}

} // verus!
