//! Where the messages of the mixnet go: at the proxy, which opens connections, and at the hidden
//! service, which is asked to.
//!
//! At the proxy every payload of an open connection reaches its endpoint. At the hidden service
//! the payloads that open a connection do not: each of them opens its connection, also one that
//! is open already, and only chunks and confirmations are delivered.

use vstd::prelude::*;

use crate::codec::{is_packet, packet_bytes};
use crate::connections::Connections;
use crate::error::{reports, SocksError};
use crate::identity::Identity;
use crate::message::{
    message_to_stream_payload, names_stream, packets_arrive_as_sent, stream_payload_in, Message,
    MessageView,
};
use crate::packet::{opening, signed, ConnectionId, PacketView, Payload, PayloadView};

verus! {

/// What becomes of a payload.
#[derive(Debug)]
pub enum Route {
    /// A new connection, with its answers going to `sender`.
    Open { sender: Identity },
    /// The open connection gets the payload.
    Deliver(Payload),
    /// No open connection wants it.
    Drop,
}

/// The mathematical content of a [`Route`].
#[verifier::ext_equal]
pub enum RouteView {
    Open { sender: Seq<u8> },
    Deliver(PayloadView),
    Drop,
}

impl View for Route {
    type V = RouteView;

    open spec fn view(&self) -> RouteView {
        match *self {
            Route::Open { sender } => RouteView::Open { sender: sender@ },
            Route::Deliver(payload) => RouteView::Deliver(payload@),
            Route::Drop => RouteView::Drop,
        }
    }
}

/// The way of a payload to one of the connections in `open`.
pub open spec fn delivery(
    open: Set<Seq<u8>>,
    stream: Seq<u8>,
    payload: PayloadView,
) -> RouteView {
    if open.contains(stream) {
        RouteView::Deliver(payload)
    } else {
        RouteView::Drop
    }
}

/// The connection that a message to the proxy belongs to, and the way of its payload.
pub open spec fn proxy_routing(open: Set<Seq<u8>>, msg: MessageView) -> Result<
    (Seq<u8>, RouteView),
    Seq<char>,
> {
    match stream_payload_in(msg) {
        Ok((stream, payload)) => Ok((stream, delivery(open, stream, payload))),
        Err(reason) => Err(reason),
    }
}

/// The connection that a message to the hidden service belongs to, and the way of its payload.
pub open spec fn service_routing(open: Set<Seq<u8>>, msg: MessageView) -> Result<
    (Seq<u8>, RouteView),
    Seq<char>,
> {
    match stream_payload_in(msg) {
        Ok((stream, PayloadView::Establish { sender })) => Ok((stream, RouteView::Open { sender })),
        Ok((stream, payload)) => Ok((stream, delivery(open, stream, payload))),
        Err(reason) => Err(reason),
    }
}

/// Decides where a message to the proxy goes.
pub fn route_to_proxy<S>(connections: &Connections<S>, msg: Message) -> (result: Result<
    (ConnectionId, Route),
    SocksError,
>)
    requires
        connections.wf(),
        names_stream(msg@),
    ensures
        reports(result, proxy_routing(connections@.dom(), msg@)),
{
    match message_to_stream_payload(msg) {
        Ok((stream, payload)) => {
            if connections.contains(&stream) {
                Ok((stream, Route::Deliver(payload)))
            } else {
                Ok((stream, Route::Drop))
            }
        },
        Err(error) => Err(error),
    }
}

/// Decides where a message to the hidden service goes.
pub fn route_to_service<S>(connections: &Connections<S>, msg: Message) -> (result: Result<
    (ConnectionId, Route),
    SocksError,
>)
    requires
        connections.wf(),
        names_stream(msg@),
    ensures
        reports(result, service_routing(connections@.dom(), msg@)),
{
    match message_to_stream_payload(msg) {
        Ok((stream, Payload::Establish { sender })) => Ok((stream, Route::Open { sender })),
        Ok((stream, payload)) => {
            if connections.contains(&stream) {
                Ok((stream, Route::Deliver(payload)))
            } else {
                Ok((stream, Route::Drop))
            }
        },
        Err(error) => Err(error),
    }
}

/// Closes the connection `stream` if it no longer takes payloads.
pub fn settle<S>(connections: &mut Connections<S>, stream: &ConnectionId, delivered: bool)
    requires
        old(connections).wf(),
    ensures
        final(connections).wf(),
        final(connections)@ == if delivered {
            old(connections)@
        } else {
            old(connections)@.remove(stream@)
        },
{
    if !delivered {
        connections.remove(stream);
    }
}

/// What the mixnet delivers of a packet: all but its recipient.
pub open spec fn delivered(packet: PacketView) -> MessageView {
    MessageView::Binary(packet_bytes(packet).skip(64))
}

/// A hidden service that gets the opening packet of a proxy opens that connection and sends its
/// answers to that proxy.
pub proof fn services_learn_who_asks(
    recipient: Identity,
    stream: ConnectionId,
    us: Identity,
    open: Set<Seq<u8>>,
)
    ensures
        service_routing(open, delivered(signed(opening(recipient@, stream@), us@))) == Ok::<
            (Seq<u8>, RouteView),
            Seq<char>,
        >((stream@, RouteView::Open { sender: us@ })),
{
    packets_arrive_as_sent(signed(opening(recipient@, stream@), us@));
}

/// A hidden service opens a connection for every message that asks for one, open already or not,
/// and hands on the chunks and the confirmations of the open connections, as they were sent. No
/// payload that opens a connection ever reaches an endpoint.
pub proof fn services_deliver_chunks_and_confirmations(
    open: Set<Seq<u8>>,
    msg: MessageView,
    stream: Seq<u8>,
    payload: PayloadView,
    sender: Seq<u8>,
)
    ensures
        service_routing(open, msg) == Ok::<(Seq<u8>, RouteView), Seq<char>>(
            (stream, RouteView::Open { sender }),
        ) <==> stream_payload_in(msg) == Ok::<(Seq<u8>, PayloadView), Seq<char>>(
            (stream, PayloadView::Establish { sender }),
        ),
        service_routing(open, msg) == Ok::<(Seq<u8>, RouteView), Seq<char>>(
            (stream, RouteView::Deliver(payload)),
        ) <==> open.contains(stream) && payload !is Establish && stream_payload_in(msg) == Ok::<
            (Seq<u8>, PayloadView),
            Seq<char>,
        >((stream, payload)),
{
}

/// A proxy hands on every payload of the open connections, as it was sent, and opens none.
pub proof fn proxies_deliver_all_payloads(
    open: Set<Seq<u8>>,
    msg: MessageView,
    stream: Seq<u8>,
    payload: PayloadView,
)
    ensures
        proxy_routing(open, msg) matches Ok((_, route)) ==> route !is Open,
        proxy_routing(open, msg) == Ok::<(Seq<u8>, RouteView), Seq<char>>(
            (stream, RouteView::Deliver(payload)),
        ) <==> open.contains(stream) && stream_payload_in(msg) == Ok::<
            (Seq<u8>, PayloadView),
            Seq<char>,
        >((stream, payload)),
{
}

/// A packet that opens no connection reaches the open connection that it belongs to, on either
/// side, with the payload that was sent.
pub proof fn open_connections_get_their_payloads(packet: PacketView, open: Set<Seq<u8>>)
    requires
        is_packet(packet),
        packet.payload !is Establish,
        open.contains(packet.stream),
    ensures
        proxy_routing(open, delivered(packet)) == Ok::<(Seq<u8>, RouteView), Seq<char>>(
            (packet.stream, RouteView::Deliver(packet.payload)),
        ),
        service_routing(open, delivered(packet)) == Ok::<(Seq<u8>, RouteView), Seq<char>>(
            (packet.stream, RouteView::Deliver(packet.payload)),
        ),
{
    packets_arrive_as_sent(packet);
}

/// What no open connection wants is dropped on either side, and a message that carries no payload
/// is refused on either side with its own reason.
pub proof fn strays_are_dropped(open: Set<Seq<u8>>, msg: MessageView)
    ensures
        stream_payload_in(msg) matches Ok((stream, payload)) ==> !open.contains(stream) ==> {
            &&& proxy_routing(open, msg) == Ok::<(Seq<u8>, RouteView), Seq<char>>(
                (stream, RouteView::Drop),
            )
            &&& payload !is Establish ==> service_routing(open, msg) == Ok::<
                (Seq<u8>, RouteView),
                Seq<char>,
            >((stream, RouteView::Drop))
        },
        stream_payload_in(msg) matches Err(reason) ==> {
            &&& proxy_routing(open, msg) == Err::<(Seq<u8>, RouteView), Seq<char>>(reason)
            &&& service_routing(open, msg) == Err::<(Seq<u8>, RouteView), Seq<char>>(reason)
        },
{
}

/// What becomes of the payloads of one connection does not depend on which others are open.
pub proof fn connections_do_not_disturb_each_other(
    open: Set<Seq<u8>>,
    other: Seq<u8>,
    msg: MessageView,
)
    requires
        stream_payload_in(msg) matches Ok((stream, _)) ==> stream != other,
    ensures
        proxy_routing(open.insert(other), msg) == proxy_routing(open, msg),
        service_routing(open.insert(other), msg) == service_routing(open, msg),
        proxy_routing(open.remove(other), msg) == proxy_routing(open, msg),
        service_routing(open.remove(other), msg) == service_routing(open, msg),
{
}

} // verus!
