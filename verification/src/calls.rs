//! What the calls of this library give back, in terms of what they are given.

use vstd::prelude::*;
use vstd::utf8::{encode_utf8, encode_utf8_decode_utf8, encode_utf8_valid_utf8, valid_utf8};

use crate::address::{
    address_in, addresses_have_an_at_sign, base58_decoded, destination_names,
    host_names_name_client_and_gateway, is_service_name, json_strings, json_strings_in,
    keys_are_found_in_host_names_and_addresses, keys_have_32_bytes, other_host_names_name_nobody,
    parse_address, parse_destination, self_address, self_address_request, try_parse_address,
    try_parse_destination,
};
use crate::base32::{base32_digits, base32_round_trip, lower_case};
use crate::codec::{
    decode_payload, encode_packet, openings_have_these_bytes, packet_bytes,
    packets_are_held_in_memory, packets_have_this_layout, payload_bytes, payload_in,
    payload_round_trip, payloads_have_this_layout,
};
use crate::connections::Connections;
use crate::driver::{Driver, DriverEvent};
use crate::error::SocksError;
use crate::handshake::{
    destinations_are_judged_by_their_name, Handshake, HandshakeAction, HandshakeEvent, Server,
    StageView,
};
use crate::identity::{
    all_keys_are_identities, identities_are_client_and_gateway, identities_are_their_keys,
    nothing_else_is_an_identity, Identity, IdentityParseError,
};
use crate::link::{Link, LinkAction, LinkEvent};
use crate::message::{
    message_to_stream_payload, message_to_string, packet_to_message, packets_arrive_as_sent,
    Message,
};
use crate::packet::{ConnectionId, Packet, Payload};
use crate::relay::{route_to_proxy, route_to_service, settle, Route};
use crate::socks::{
    authenticate, connect_reply, decided_offers_stay, echo_reply, hosts_and_ports_are_understood,
    offers_need_the_open_method, receive_request, Progress, RequestView, SocksRequest,
};
use crate::text::{
    first_separator_ends_the_first_piece, split, text_without_separators_is_one_piece, texts,
};
use crate::transport::{
    confirmations_are_never_answered, openings_are_confirmed, reads_are_sent_at_once,
    reliable_transport, steps_view, ticks_send_what_is_not_confirmed, writes_come_before_packets,
    written_chunks_are_confirmed, Transport, TransportAction, TransportEvent, TransportStep,
    CHUNK_LEN,
};

verus! {

/// The host name that is made of the Base58 texts of two keys is parsed as these keys.
pub proof fn keys_are_parsed(
    client: Seq<char>,
    gateway: Seq<char>,
    rest: Seq<char>,
    fqdn: &str,
    destination: Result<Identity, SocksError>,
    tried: Option<Result<Identity, SocksError>>,
)
    requires
        base58_decoded(client) matches Some(key) && key.len() == 32,
        base58_decoded(gateway) matches Some(key) && key.len() == 32,
        rest.len() > 0 ==> rest[0] == '.',
        fqdn@ == client + seq!['.'] + gateway + seq!['.', 'n', 'y', 'm'] + rest,
        call_ensures(try_parse_destination, (fqdn,), tried),
        call_ensures(parse_destination, (fqdn,), destination),
    ensures
        call_requires(parse_destination, (fqdn,)),
        destination matches Ok(identity) && identity.client@ == base58_decoded(client)->Some_0
            && identity.gateway@ == base58_decoded(gateway)->Some_0,
        tried matches Some(Ok(identity)) && identity.client@ == base58_decoded(client)->Some_0
            && identity.gateway@ == base58_decoded(gateway)->Some_0,
{
    let client_key = base58_decoded(client)->Some_0;
    let gateway_key = base58_decoded(gateway)->Some_0;
    keys_are_found_in_host_names_and_addresses(client, gateway, client_key, gateway_key, rest);
    let keys = client_key + gateway_key;
    assert(keys.take(32) =~= client_key);
    assert(keys.skip(32) =~= gateway_key);
    identities_are_client_and_gateway(destination->Ok_0);
    identities_are_client_and_gateway(tried->Some_0->Ok_0);
}

/// The address that is made of the Base58 texts of two keys is parsed as these keys.
pub proof fn keys_are_parsed_from_addresses(
    client: Seq<char>,
    gateway: Seq<char>,
    rest: Seq<char>,
    addr: &str,
    identity: Identity,
    tried: Option<Identity>,
)
    requires
        base58_decoded(client) matches Some(key) && key.len() == 32,
        base58_decoded(gateway) matches Some(key) && key.len() == 32,
        rest.len() > 0 ==> rest[0] == '@',
        addr@ == client + seq!['@'] + gateway + rest,
        call_ensures(parse_address, (addr,), identity),
        call_ensures(try_parse_address, (addr,), tried),
    ensures
        call_requires(parse_address, (addr,)),
        identity.client@ == base58_decoded(client)->Some_0,
        identity.gateway@ == base58_decoded(gateway)->Some_0,
        tried == Some(identity),
{
    let client_key = base58_decoded(client)->Some_0;
    let gateway_key = base58_decoded(gateway)->Some_0;
    keys_are_found_in_host_names_and_addresses(client, gateway, client_key, gateway_key, rest);
    let keys = client_key + gateway_key;
    assert(keys.take(32) =~= client_key);
    assert(keys.skip(32) =~= gateway_key);
    identities_are_client_and_gateway(identity);
    identities_are_their_keys(identity, tried->Some_0);
}

/// A host name is turned away if and only if it is not two labels and `nym`, whatever follows.
pub proof fn other_host_names_are_turned_away(
    fqdn: &str,
    tried: Option<Result<Identity, SocksError>>,
)
    requires
        call_ensures(try_parse_destination, (fqdn,), tried),
    ensures
        tried matches Some(Err(error)) ==> error is UnsupportedDestination,
        tried matches Some(Err(_)) <==> !exists|client: Seq<char>, gateway: Seq<char>|
            is_service_name(fqdn@, client, gateway),
        call_requires(try_parse_destination, (fqdn,)),
{
    other_host_names_name_nobody(fqdn@);
    if let Some((client, gateway)) = destination_names(fqdn@) {
        assert(is_service_name(fqdn@, client, gateway));
    }
    assert forall|client: Seq<char>, gateway: Seq<char>| #[trigger]
        is_service_name(fqdn@, client, gateway) implies destination_names(fqdn@) is Some by {
        let name = client + seq!['.'] + gateway + seq!['.', 'n', 'y', 'm'];
        let rest = fqdn@.skip(name.len() as int);
        host_names_name_client_and_gateway(client, gateway, rest);
        assert(name + rest =~= fqdn@);
    }
}

/// The question for the client's own address is always asked in the same words.
pub proof fn own_address_is_asked_for(msg: Message)
    requires
        call_ensures(self_address_request, (), msg),
    ensures
        msg matches Message::Text(text) && text@ == "{\"type\": \"selfAddress\"}"@,
{
}

/// A packet that opens a connection is for the recipient and the connection that it was made for.
/// Who signs it is its sender, and nothing else about it changes.
pub proof fn openings_are_made_and_signed(
    recipient: Identity,
    stream: ConnectionId,
    us: Identity,
    made: Packet,
    named: Packet,
)
    requires
        call_ensures(Packet::establish, (recipient, stream), made),
        call_ensures(Packet::sign, (made, us), named),
    ensures
        made.recipient@ == recipient@,
        made.stream@ == stream@,
        made.payload is Establish,
        named.recipient@ == recipient@,
        named.stream@ == stream@,
        named.payload matches Payload::Establish { sender } && sender@ == us@,
{
}

/// To sign a packet that opens no connection changes nothing, and to sign any changes neither its
/// recipient nor its connection.
pub proof fn signing_keeps_packets(packet: Packet, us: Identity, named: Packet)
    requires
        call_ensures(Packet::sign, (packet, us), named),
    ensures
        named.recipient@ == packet.recipient@,
        named.stream@ == packet.stream@,
        packet.payload !is Establish ==> named.payload@ == packet.payload@,
        packet.payload is Establish ==> (named.payload matches Payload::Establish { sender }
            && sender@ == us@),
{
}

/// What is handed to the mixnet starts with the recipient's keys and the connection, and whoever
/// gets the rest of it reads the connection and the payload that were sent.
pub proof fn packets_are_read_as_they_were_sent(
    packet: Packet,
    sent: Message,
    delivered: Message,
    read: Result<(ConnectionId, Payload), SocksError>,
)
    requires
        call_ensures(packet_to_message, (&packet,), sent),
        sent matches Message::Binary(bytes) ==> (delivered matches Message::Binary(rest) && rest@
            == bytes@.skip(64)),
        call_ensures(message_to_stream_payload, (delivered,), read),
    ensures
        sent matches Message::Binary(bytes) && bytes@.take(64) == packet.recipient@
            && bytes@.subrange(64, 96) == packet.stream@,
        call_requires(message_to_stream_payload, (delivered,)),
        read matches Ok((stream, payload)) && stream@ == packet.stream@ && payload@
            == packet.payload@,
{
    packets_are_held_in_memory(packet);
    packets_have_this_layout(packet@);
    packets_arrive_as_sent(packet@);
}

/// Openings, chunks and confirmations are told apart by the four bytes behind the connection, and
/// the bytes of an opening end with its sender's keys, those of a chunk with its data.
pub proof fn packets_are_told_apart(packet: Packet, sent: Message)
    requires
        call_ensures(packet_to_message, (&packet,), sent),
    ensures
        sent matches Message::Binary(bytes) && match packet.payload {
            Payload::Establish { sender } => bytes@.skip(96) == seq![0u8, 0, 0, 0] + sender@,
            Payload::Data { data, .. } => bytes@.subrange(96, 100) == seq![1u8, 0, 0, 0]
                && bytes@.skip(116) == data@,
            Payload::Ack { .. } => bytes@.subrange(96, 100) == seq![2u8, 0, 0, 0] && bytes@.len()
                == 108,
        },
{
    packets_are_held_in_memory(packet);
    packets_have_this_layout(packet@);
    let bytes = packet_bytes(packet@);
    let payload = payload_bytes(packet.payload@);
    assert(payload == bytes.skip(96));
    match packet.payload {
        Payload::Establish { sender } => {
            payloads_have_this_layout(sender@, 0, Seq::empty());
        },
        Payload::Data { idx, data } => {
            payloads_have_this_layout(Seq::empty(), idx as nat, data@);
            assert(bytes.subrange(96, 100) =~= payload.take(4));
            assert(bytes.skip(116) =~= payload.skip(20));
        },
        Payload::Ack { idx } => {
            payloads_have_this_layout(Seq::empty(), idx as nat, Seq::empty());
            assert(bytes.subrange(96, 100) =~= payload.take(4));
        },
    }
}

/// A text is read from a message in either form.
pub proof fn texts_are_read(text: String, bytes: Vec<u8>, read: Result<String, SocksError>)
    requires
        call_ensures(message_to_string, (Message::Text(text),), read) || (bytes@ == encode_utf8(
            text@,
        ) && call_ensures(message_to_string, (Message::Binary(bytes),), read)),
    ensures
        read matches Ok(result) && result@ == text@,
{
    encode_utf8_valid_utf8(text@);
    encode_utf8_decode_utf8(text@);
}

/// A client of a proxy is always told that it is connected, and one of an echo server is told what
/// it asked for.
pub proof fn requests_get_these_replies(
    request: SocksRequest,
    connected: Vec<u8>,
    echoed: Vec<u8>,
)
    requires
        call_ensures(connect_reply, (), connected),
        call_ensures(echo_reply, (&request,), echoed),
    ensures
        connected@ == seq![5u8, 0, 0, 1, 10, 0, 0, 1],
        echoed@ == seq![5u8, 0, 0, 3, (encode_utf8(request.fqdn@).len() % 256) as u8]
            + encode_utf8(request.fqdn@) + seq![
            (request.port / 256) as u8,
            (request.port % 256) as u8,
        ],
{
}

/// A request for any host of at most 255 bytes and any port is received as that host and that
/// port.
pub proof fn requests_are_received(
    fqdn: Seq<char>,
    port: u16,
    rest: Seq<u8>,
    received: &[u8],
    result: Result<Progress<SocksRequest>, SocksError>,
)
    requires
        encode_utf8(fqdn).len() <= 255,
        received@ == seq![5u8, 1, 0, 3, encode_utf8(fqdn).len() as u8] + encode_utf8(fqdn) + seq![
            (port / 256) as u8,
            (port % 256) as u8,
        ] + rest,
        call_ensures(receive_request, (received,), result),
    ensures
        result matches Ok(Progress::Done(request)) && request.fqdn@ == fqdn && request.port
            == port,
{
    hosts_and_ports_are_understood(fqdn, port, rest);
}

/// A proxy that has replied to a request for the host name of a hidden service connects the client
/// to that service, whatever the port.
pub proof fn proxies_connect(
    handshake: &mut Handshake,
    client: Seq<char>,
    gateway: Seq<char>,
    rest: Seq<char>,
    port: u16,
    result: Result<HandshakeAction, SocksError>,
)
    requires
        base58_decoded(client) matches Some(key) && key.len() == 32,
        base58_decoded(gateway) matches Some(key) && key.len() == 32,
        !client.contains('.'),
        !gateway.contains('.'),
        rest.len() > 0 ==> rest[0] == '.',
        old(handshake)@.server is Proxy,
        old(handshake)@.stage == (StageView::Replying {
            request: RequestView {
                fqdn: client + seq!['.'] + gateway + seq!['.', 'n', 'y', 'm'] + rest,
                port,
            },
        }),
        call_ensures(Handshake::advance, (handshake, HandshakeEvent::Written), result),
    ensures
        call_requires(Handshake::advance, (handshake, HandshakeEvent::Written)),
        result matches Ok(HandshakeAction::Connect(identity)) && identity@ == base58_decoded(
            client,
        )->Some_0 + base58_decoded(gateway)->Some_0,
        final(handshake)@.stage is Ended,
{
    destinations_are_judged_by_their_name(client, gateway, rest, port, Seq::empty(), port);
}

/// A failure of the socket ends a handshake with that failure and nothing else.
pub proof fn broken_handshakes_end(
    handshake: &mut Handshake,
    error: std::io::Error,
    result: Result<HandshakeAction, SocksError>,
)
    requires
        call_ensures(Handshake::advance, (handshake, HandshakeEvent::Failed(error)), result),
    ensures
        result matches Err(SocksError::IoError(failure)) && failure == error,
        final(handshake)@.stage is Ended,
{
}

/// A confirmation that comes in is not answered and nothing is written.
pub proof fn confirmations_get_no_answer(
    transport: &mut Transport,
    idx: usize,
    action: TransportAction,
    steps: Vec<TransportStep>,
)
    requires
        call_ensures(
            reliable_transport,
            (transport, TransportEvent::Received(Payload::Ack { idx })),
            action,
        ),
        call_ensures(TransportAction::steps, (action,), steps),
    ensures
        call_requires(
            reliable_transport,
            (transport, TransportEvent::Received(Payload::Ack { idx })),
        ),
        action.write is None,
        action.send is None,
        steps@.len() == 0,
        idx == old(transport)@.last_out ==> final(transport)@.unacked is None,
        idx != old(transport)@.last_out ==> final(transport)@ == old(transport)@,
        final(transport)@.last_out == old(transport)@.last_out,
        final(transport)@.last_in == old(transport)@.last_in,
{
    confirmations_are_never_answered(old(transport)@, idx as nat);
}

/// A chunk that comes in is written if it is the next one, confirmed to the peer if it is the last
/// one written by then, and ignored otherwise.
pub proof fn chunks_get_their_confirmation(
    transport: &mut Transport,
    idx: usize,
    data: Vec<u8>,
    action: TransportAction,
)
    requires
        call_ensures(
            reliable_transport,
            (transport, TransportEvent::Received(Payload::Data { idx, data })),
            action,
        ),
    ensures
        action.write is Some <==> idx == old(transport)@.last_in + 1,
        action.write matches Some(bytes) ==> bytes@ == data@,
        action.send is Some <==> idx == final(transport)@.last_in,
        action.send matches Some(packet) ==> packet.recipient@ == old(transport)@.peer
            && packet.stream@ == old(transport)@.stream && (
        packet.payload matches Payload::Ack { idx: number } && number == idx),
        final(transport)@.last_in == if idx == old(transport)@.last_in + 1 {
            idx as nat
        } else {
            old(transport)@.last_in
        },
        final(transport)@.unacked == old(transport)@.unacked,
        final(transport)@.last_out == old(transport)@.last_out,
{
    written_chunks_are_confirmed(old(transport)@, idx as nat, data@);
}

/// What is read is sent to the peer as the next chunk, and sent again by every tick that follows.
pub proof fn reads_become_chunks(
    transport: &mut Transport,
    data: Vec<u8>,
    action: TransportAction,
    later: &mut Transport,
    again: TransportAction,
)
    requires
        call_ensures(reliable_transport, (transport, TransportEvent::Read(data)), action),
        old(later)@ == final(transport)@,
        call_ensures(reliable_transport, (later, TransportEvent::Tick), again),
    ensures
        action.write is None,
        action.send matches Some(packet) && packet.recipient@ == old(transport)@.peer
            && packet.stream@ == old(transport)@.stream && (
        packet.payload matches Payload::Data { idx, data: chunk } && idx
            == old(transport)@.last_out + 1 && chunk@ == data@),
        again.write is None,
        again.send matches Some(packet) && packet@ == action.send->Some_0@,
        final(later)@ == final(transport)@,
{
    reads_are_sent_at_once(old(transport)@, data@);
}

/// The first failure ends an endpoint, with the error of its socket, or for a dropped connection.
pub proof fn broken_endpoints_end(
    driver: &mut Driver,
    event: DriverEvent,
    result: Result<Option<TransportStep>, SocksError>,
)
    requires
        call_ensures(Driver::advance, (driver, event), result),
    ensures
        match event {
            DriverEvent::ReadFailed(error) | DriverEvent::Written(Err(error)) => {
                &&& result matches Err(SocksError::IoError(failure)) && failure == error
                &&& final(driver)@.phase is Ended
            },
            DriverEvent::Sent(Err(_)) => {
                &&& result matches Err(SocksError::ConnectionDropped)
                &&& final(driver)@.phase is Ended
            },
            _ => result is Ok && final(driver)@.phase !is Ended,
        },
{
}

/// A proxy that opens a connection to a recipient sends the opening to that recipient, in its own
/// name, with the first tick.
pub proof fn proxies_open_connections(
    recipient: Identity,
    stream: ConnectionId,
    us: Identity,
    driver: &mut Driver,
    made: Driver,
    step: Result<Option<TransportStep>, SocksError>,
    link: &mut Link,
    fresh: Link,
    packet: Packet,
    action: LinkAction,
)
    requires
        call_ensures(Driver::of_proxy, (recipient, stream), made),
        old(driver)@ == made@,
        call_ensures(
            Driver::advance,
            (driver, DriverEvent::Happened(TransportEvent::Tick)),
            step,
        ),
        call_ensures(Link::of_proxy, (us,), fresh),
        old(link)@ == fresh@,
        step matches Ok(Some(TransportStep::Send(sent))) ==> sent@ == packet@,
        call_ensures(Link::handle, (link, LinkEvent::Outgoing(packet)), action),
    ensures
        call_requires(Driver::advance, (driver, DriverEvent::Happened(TransportEvent::Tick))),
        step matches Ok(Some(TransportStep::Send(_))),
        call_requires(Link::handle, (link, LinkEvent::Outgoing(packet))),
        action matches LinkAction::Send(Message::Binary(bytes)) && bytes@ == recipient@ + stream@
            + seq![0u8, 0, 0, 0] + us@,
{
    ticks_send_what_is_not_confirmed(made@.transport);
    openings_have_these_bytes(recipient@, stream@, us@);
}

/// After a packet, and after nothing else, a message of the client is ignored; every other message
/// is routed as it is.
pub proof fn links_wait_for_one_answer(
    link: &mut Link,
    packet: Packet,
    sent: LinkAction,
    later: &mut Link,
    answer: Message,
    ignored: LinkAction,
    last: &mut Link,
    msg: Message,
    routed: LinkAction,
)
    requires
        call_ensures(Link::handle, (link, LinkEvent::Outgoing(packet)), sent),
        old(later)@ == final(link)@,
        call_ensures(Link::handle, (later, LinkEvent::Incoming(answer)), ignored),
        old(last)@ == final(later)@,
        call_ensures(Link::handle, (last, LinkEvent::Incoming(msg)), routed),
    ensures
        sent is Send,
        ignored is Ignore,
        routed matches LinkAction::Route(message) && message@ == msg@,
        final(last)@ == final(later)@,
{
}

/// The text of an identity is read back as that identity.
pub proof fn identities_are_read_back(
    identity: Identity,
    text: String,
    s: &str,
    parsed: Result<Identity, IdentityParseError>,
    tried: Option<Result<Identity, IdentityParseError>>,
)
    requires
        call_ensures(Identity::to_string, (&identity,), text),
        s@ == text@,
        call_ensures(Identity::from_str, (s,), parsed),
        call_ensures(Identity::try_from_str, (s,), tried),
    ensures
        call_requires(Identity::from_str, (s,)),
        parsed == Ok::<Identity, IdentityParseError>(identity),
        tried == Some(Ok::<Identity, IdentityParseError>(identity)),
{
    identities_are_their_keys(parsed->Ok_0, identity);
    identities_are_their_keys(tried->Some_0->Ok_0, identity);
}

/// Two texts of one identity differ in letter case at most.
pub proof fn texts_of_one_identity_are_alike(
    a: &str,
    b: &str,
    identity: Identity,
)
    requires
        call_ensures(Identity::from_str, (a,), Ok(identity)),
        call_ensures(Identity::from_str, (b,), Ok(identity)),
    ensures
        lower_case(a@) == lower_case(b@),
        a@.len() == 113,
        b@.len() == 113,
{
}

/// A connection that was opened is reached by its id and no other, until it is closed.
pub proof fn connections_are_found<S>(
    connections: &mut Connections<S>,
    id: ConnectionId,
    sender: S,
    opened: Connections<S>,
    other: ConnectionId,
    found: bool,
    found_other: bool,
    closing: &mut Connections<S>,
    closed: Connections<S>,
    left: bool,
)
    requires
        call_ensures(Connections::<S>::insert, (connections, id, sender), ()),
        opened == *final(connections),
        call_ensures(Connections::<S>::contains, (&opened, &id), found),
        call_ensures(Connections::<S>::contains, (&opened, &other), found_other),
        *old(closing) == opened,
        call_ensures(Connections::<S>::remove, (closing, &id), ()),
        closed == *final(closing),
        call_ensures(Connections::<S>::contains, (&closed, &id), left),
    ensures
        found,
        other@ != id@ ==> found_other == old(connections)@.contains_key(other@),
        !left,
        opened@[id@] == sender,
{
}

/// A connection that no longer takes payloads is closed, and every other stays as it is.
pub proof fn dead_connections_are_closed<S>(
    connections: &mut Connections<S>,
    stream: ConnectionId,
    delivered: bool,
)
    requires
        call_ensures(settle::<S>, (connections, &stream, delivered), ()),
    ensures
        delivered ==> final(connections)@ == old(connections)@,
        !delivered ==> !final(connections)@.contains_key(stream@),
        !delivered ==> forall|other: Seq<u8>|
            other != stream@ && #[trigger] old(connections)@.contains_key(other)
                ==> final(connections)@.contains_key(other) && final(connections)@[other]
                == old(connections)@[other],
{
}

/// A name of a hidden service that holds no keys is told apart from every other, and so is an
/// address that does not name two keys.
pub proof fn names_without_keys_are_told_apart(
    fqdn: &str,
    tried: Option<Result<Identity, SocksError>>,
    addr: &str,
    tried_address: Option<Identity>,
    client: Seq<char>,
    gateway: Seq<char>,
    rest: Seq<char>,
)
    requires
        !client.contains('.'),
        !gateway.contains('.'),
        rest.len() > 0 ==> rest[0] == '.',
        fqdn@ == client + seq!['.'] + gateway + seq!['.', 'n', 'y', 'm'] + rest,
        call_ensures(try_parse_destination, (fqdn,), tried),
        call_ensures(try_parse_address, (addr,), tried_address),
    ensures
        tried is None <==> !((base58_decoded(client) matches Some(key) && key.len() == 32) && (
        base58_decoded(gateway) matches Some(key) && key.len() == 32)),
        !addr@.contains('@') ==> tried_address is None,
{
    host_names_name_client_and_gateway(client, gateway, rest);
    keys_have_32_bytes(client, gateway);
    addresses_have_an_at_sign(addr@);
}

/// An echo server that has read a request for a host and a port replies with that host and that
/// port, however the last bytes came in, and lets the client go once they are written.
pub proof fn echo_servers_reply(
    handshake: &mut Handshake,
    before: Seq<u8>,
    bytes: Vec<u8>,
    fqdn: Seq<char>,
    port: u16,
    result: Result<HandshakeAction, SocksError>,
    later: &mut Handshake,
    end: Result<HandshakeAction, SocksError>,
)
    requires
        encode_utf8(fqdn).len() <= 255,
        before + bytes@ == seq![5u8, 1, 0, 3, encode_utf8(fqdn).len() as u8] + encode_utf8(fqdn)
            + seq![(port / 256) as u8, (port % 256) as u8],
        old(handshake)@.server is Echo,
        old(handshake)@.stage == (StageView::Request { received: before }),
        call_ensures(Handshake::advance, (handshake, HandshakeEvent::Received(bytes)), result),
        old(later)@ == final(handshake)@,
        call_ensures(Handshake::advance, (later, HandshakeEvent::Written), end),
    ensures
        result matches Ok(HandshakeAction::Reply { request, bytes }) && request.fqdn@ == fqdn
            && request.port == port && bytes@ == seq![
            5u8,
            0,
            0,
            3,
            encode_utf8(fqdn).len() as u8,
        ] + encode_utf8(fqdn) + seq![(port / 256) as u8, (port % 256) as u8],
        call_requires(Handshake::advance, (later, HandshakeEvent::Written)),
        end matches Ok(HandshakeAction::Close),
        final(later)@.stage is Ended,
{
    let name = encode_utf8(fqdn);
    hosts_and_ports_are_understood(fqdn, port, Seq::empty());
    assert((before + bytes@) + Seq::<u8>::empty() =~= before + bytes@);
    assert(name.len() % 256 == name.len());
}

/// A proxy that has read a request replies that it is connected, whatever the host and the port.
pub proof fn proxies_reply(
    handshake: &mut Handshake,
    before: Seq<u8>,
    bytes: Vec<u8>,
    fqdn: Seq<char>,
    port: u16,
    result: Result<HandshakeAction, SocksError>,
)
    requires
        encode_utf8(fqdn).len() <= 255,
        before + bytes@ == seq![5u8, 1, 0, 3, encode_utf8(fqdn).len() as u8] + encode_utf8(fqdn)
            + seq![(port / 256) as u8, (port % 256) as u8],
        old(handshake)@.server is Proxy,
        old(handshake)@.stage == (StageView::Request { received: before }),
        call_ensures(Handshake::advance, (handshake, HandshakeEvent::Received(bytes)), result),
    ensures
        result matches Ok(HandshakeAction::Reply { request, bytes }) && request.fqdn@ == fqdn
            && request.port == port && bytes@ == seq![5u8, 0, 0, 1, 10, 0, 0, 1],
        final(handshake)@.stage == (StageView::Replying { request: RequestView { fqdn, port } }),
{
    hosts_and_ports_are_understood(fqdn, port, Seq::empty());
    assert((before + bytes@) + Seq::<u8>::empty() =~= before + bytes@);
}

/// A message that a packet was sent in reaches the open connection that it belongs to, on either
/// side, with the payload that was sent. At a hidden service an opening opens the connection for
/// its sender, whether or not it is open. What belongs to no open connection is dropped.
pub proof fn packets_are_routed<S>(
    packet: Packet,
    sent: Message,
    delivered: Message,
    connections: &Connections<S>,
    at_proxy: Result<(ConnectionId, Route), SocksError>,
    at_service: Result<(ConnectionId, Route), SocksError>,
)
    requires
        connections.wf(),
        call_ensures(packet_to_message, (&packet,), sent),
        sent matches Message::Binary(bytes) ==> (delivered matches Message::Binary(rest) && rest@
            == bytes@.skip(64)),
        call_ensures(route_to_proxy::<S>, (connections, delivered), at_proxy),
        call_ensures(route_to_service::<S>, (connections, delivered), at_service),
    ensures
        call_requires(route_to_proxy::<S>, (connections, delivered)),
        call_requires(route_to_service::<S>, (connections, delivered)),
        at_proxy matches Ok((stream, route)) && stream@ == packet.stream@ && match route {
            Route::Open { .. } => false,
            Route::Deliver(payload) => connections@.contains_key(packet.stream@) && payload@
                == packet.payload@,
            Route::Drop => !connections@.contains_key(packet.stream@),
        },
        at_service matches Ok((stream, route)) && stream@ == packet.stream@ && match route {
            Route::Open { sender } => packet.payload matches Payload::Establish { sender: us }
                && sender@ == us@,
            Route::Deliver(payload) => packet.payload !is Establish && connections@.contains_key(
                packet.stream@,
            ) && payload@ == packet.payload@,
            Route::Drop => packet.payload !is Establish && !connections@.contains_key(
                packet.stream@,
            ),
        },
{
    packets_are_held_in_memory(packet);
    packets_arrive_as_sent(packet@);
}

/// A new endpoint of a proxy holds its opening until it is confirmed and reads nothing before; one
/// of a hidden service can read at once. Both are for the peer and the connection that they were
/// made for, and both wait.
pub proof fn endpoints_start_so(
    peer: Identity,
    stream: ConnectionId,
    proxy: Driver,
    service: Driver,
    proxy_reads: bool,
    service_reads: bool,
)
    requires
        call_ensures(Driver::of_proxy, (peer, stream), proxy),
        call_ensures(Driver::of_service, (peer, stream), service),
        call_ensures(Driver::can_read, (&proxy,), proxy_reads),
        call_ensures(Driver::can_read, (&service,), service_reads),
    ensures
        !proxy_reads,
        service_reads,
        proxy@.phase is Waiting,
        service@.phase is Waiting,
        proxy@.transport.unacked matches Some(packet) && packet.recipient == peer@ && packet.stream
            == stream@ && packet.payload is Establish,
        proxy@.transport.peer == peer@ && proxy@.transport.stream == stream@,
        service@.transport.peer == peer@ && service@.transport.stream == stream@,
        proxy@.transport.last_in == 0 && proxy@.transport.last_out == 0,
        service@.transport.last_in == 0 && service@.transport.last_out == 0,
{
}

/// A test before a call tells exactly whether the call can be made.
pub proof fn tests_tell_what_can_be_handled(
    transport: &mut Transport,
    transport_event: TransportEvent,
    transport_ready: bool,
    handshake: &mut Handshake,
    handshake_event: HandshakeEvent,
    handshake_ready: bool,
    link: &mut Link,
    link_event: LinkEvent,
    link_ready: bool,
    driver: &mut Driver,
    driver_event: DriverEvent,
    driver_ready: bool,
)
    requires
        call_ensures(Transport::can_handle, (&*old(transport), &transport_event), transport_ready),
        call_ensures(Handshake::can_handle, (&*old(handshake), &handshake_event), handshake_ready),
        call_ensures(Link::can_handle, (&*old(link), &link_event), link_ready),
        call_ensures(Driver::can_handle, (&*old(driver), &driver_event), driver_ready),
    ensures
        transport_ready == old(transport)@.accepts(transport_event@),
        transport_ready ==> call_requires(reliable_transport, (transport, transport_event)),
        handshake_ready == old(handshake)@.accepts(handshake_event@),
        handshake_ready ==> call_requires(Handshake::advance, (handshake, handshake_event)),
        link_ready == old(link)@.accepts(link_event@),
        link_ready ==> call_requires(Link::handle, (link, link_event)),
        driver_ready == old(driver)@.accepts(driver_event@),
        driver_ready ==> call_requires(Driver::advance, (driver, driver_event)),
{
}

/// An endpoint may read from its socket if and only if every packet of it is confirmed, and a link
/// awaits an answer if and only if its last packet has none.
pub proof fn questions_are_answered(
    transport: &Transport,
    transport_reads: bool,
    driver: &Driver,
    driver_reads: bool,
    link: &Link,
    awaiting: bool,
    payload: &Payload,
    expected: bool,
    driver_expected: bool,
)
    requires
        call_ensures(Transport::can_read, (transport,), transport_reads),
        call_ensures(Driver::can_read, (driver,), driver_reads),
        call_ensures(Link::is_awaiting, (link,), awaiting),
        call_ensures(Transport::expects, (transport, payload), expected),
        call_ensures(Driver::expects, (driver, payload), driver_expected),
    ensures
        transport_reads <==> transport@.unacked is None,
        driver_reads <==> driver@.transport.unacked is None,
        awaiting <==> link@.awaiting,
        payload matches Payload::Data { idx, .. } ==> (expected <==> *idx == transport@.last_in
            || *idx == transport@.last_in + 1),
        payload matches Payload::Ack { idx } ==> (expected <==> *idx == transport@.last_out),
        payload matches Payload::Data { idx, .. } ==> (driver_expected <==> *idx
            == driver@.transport.last_in || *idx == driver@.transport.last_in + 1),
        payload matches Payload::Ack { idx } ==> (driver_expected <==> *idx
            == driver@.transport.last_out),
        payload is Establish ==> expected && driver_expected,
{
}

/// An endpoint that is made with a packet to start with holds that packet until it is confirmed,
/// and has neither sent nor accepted a chunk.
pub proof fn endpoints_are_made_so(
    peer: Identity,
    stream: ConnectionId,
    init_pkg: Option<Packet>,
    transport: Transport,
)
    requires
        call_ensures(Transport::new, (peer, stream, init_pkg), transport),
    ensures
        transport@.peer == peer@,
        transport@.stream == stream@,
        transport@.last_out == 0,
        transport@.last_in == 0,
        init_pkg matches Some(packet) ==> transport@.unacked == Some(packet@),
        init_pkg is None ==> transport@.unacked is None,
{
}

/// An opening that comes in is confirmed as chunk zero, and nothing else changes.
pub proof fn openings_get_their_confirmation(
    transport: &mut Transport,
    sender: Identity,
    action: TransportAction,
)
    requires
        call_ensures(
            reliable_transport,
            (transport, TransportEvent::Received(Payload::Establish { sender })),
            action,
        ),
    ensures
        action.write is None,
        action.send matches Some(packet) && packet.recipient@ == old(transport)@.peer
            && packet.stream@ == old(transport)@.stream && (
        packet.payload matches Payload::Ack { idx } && idx == 0),
        final(transport)@ == old(transport)@,
{
    openings_are_confirmed(old(transport)@, sender@);
}

/// The steps of an action are its write and then its packet.
pub proof fn writes_are_the_first_step(action: TransportAction, steps: Vec<TransportStep>)
    requires
        call_ensures(TransportAction::steps, (action,), steps),
    ensures
        action.write matches Some(bytes) ==> steps@.len() >= 1 && (
        steps@[0] matches TransportStep::Write(written) && written@ == bytes@),
        action.send matches Some(packet) ==> steps@.len() >= 1 && (
        steps@.last() matches TransportStep::Send(sent) && sent@ == packet@),
        action.write is None && action.send is None ==> steps@.len() == 0,
        steps@.len() == 2 ==> action.write is Some && action.send is Some,
        steps@.len() <= 2,
{
    let views = steps_view(steps@);
    writes_come_before_packets(action@);
    assert(views.len() == steps@.len());
    assert(forall|i: int| 0 <= i < steps@.len() ==> views[i] == #[trigger] steps@[i]@);
}

/// What was read is the front of the buffer, of that length.
pub proof fn reads_are_taken_from_the_buffer(
    buffer: [u8; CHUNK_LEN],
    read: usize,
    event: TransportEvent,
)
    requires
        read <= 500,
        call_ensures(TransportEvent::of_read, (&buffer, read), event),
    ensures
        call_requires(TransportEvent::of_read, (&buffer, read)),
        event matches TransportEvent::Read(data) && data@.len() == read && (forall|i: int|
            0 <= i < read ==> data@[i] == buffer@[i]),
{
}

/// The own address is the string member of that name in the client's answer, and there is none
/// where there is no such member or no JSON.
pub proof fn own_address_is_the_member(
    answer: &str,
    found: Option<String>,
    value: serde_json::Value,
    member: Option<String>,
)
    requires
        call_ensures(self_address, (answer,), found),
        call_ensures(address_in, (&value,), member),
    ensures
        json_strings_in(answer@) is None ==> found is None,
        json_strings_in(answer@) matches Some(strings) ==> (found is Some <==> strings.contains_key(
            "address"@,
        )),
        json_strings_in(answer@) matches Some(strings) ==> (found matches Some(address)
            ==> address@ == strings["address"@]),
        member is Some <==> json_strings(value).contains_key("address"@),
        member matches Some(address) ==> address@ == json_strings(value)["address"@],
{
}

/// Messages that hold no text are refused, each with its reason.
pub proof fn other_messages_hold_no_text(
    msg: Message,
    read: Result<String, SocksError>,
)
    requires
        call_ensures(message_to_string, (msg,), read),
        match msg {
            Message::Text(_) => false,
            Message::Binary(bytes) => !valid_utf8(bytes@),
            _ => true,
        },
    ensures
        read matches Err(SocksError::ProtocolError(reason)) && reason@ == if msg is Binary {
            "invalid UTF8"@
        } else {
            "unexpected message"@
        },
{
}

/// Messages that carry no payload are refused, each with its reason, wherever they are taken.
pub proof fn other_messages_are_refused<S>(
    msg: Message,
    connections: &Connections<S>,
    read: Result<(ConnectionId, Payload), SocksError>,
    at_proxy: Result<(ConnectionId, Route), SocksError>,
    at_service: Result<(ConnectionId, Route), SocksError>,
)
    requires
        connections.wf(),
        match msg {
            Message::Binary(bytes) => bytes@.len() >= 32 && payload_in(bytes@.skip(32)) is None,
            _ => true,
        },
        call_ensures(message_to_stream_payload, (msg,), read),
        call_ensures(route_to_proxy::<S>, (connections, msg), at_proxy),
        call_ensures(route_to_service::<S>, (connections, msg), at_service),
    ensures
        ({
            let why = if msg is Binary {
                "Decoding Error"@
            } else {
                "unexpected message"@
            };
            &&& read matches Err(SocksError::ProtocolError(reason)) && reason@ == why
            &&& at_proxy matches Err(SocksError::ProtocolError(reason)) && reason@ == why
            &&& at_service matches Err(SocksError::ProtocolError(reason)) && reason@ == why
        }),
        call_requires(message_to_stream_payload, (msg,)),
        call_requires(route_to_proxy::<S>, (connections, msg)),
        call_requires(route_to_service::<S>, (connections, msg)),
{
}

/// The bytes of a packet end with those of its payload, which are read back as that payload,
/// whatever follows them.
pub proof fn payloads_are_read_back(
    packet: Packet,
    encoded: Vec<u8>,
    bytes: &[u8],
    rest: Seq<u8>,
    read: Option<Payload>,
)
    requires
        call_ensures(encode_packet, (&packet,), encoded),
        bytes@ == encoded@.skip(96) + rest,
        call_ensures(decode_payload, (bytes,), read),
    ensures
        read matches Some(payload) && payload@ == packet.payload@,
{
    packets_are_held_in_memory(packet);
    packets_have_this_layout(packet@);
    payload_round_trip(packet.payload@, rest);
}

/// An offer is accepted if and only if it lists the method without authentication, and the answer
/// picks that method.
pub proof fn offers_are_answered(
    methods: Seq<u8>,
    rest: Seq<u8>,
    received: &[u8],
    result: Result<Progress<Vec<u8>>, SocksError>,
)
    requires
        methods.len() <= 255,
        received@ == seq![5u8, methods.len() as u8] + methods + rest,
        call_ensures(authenticate, (received,), result),
    ensures
        methods.contains(0u8) ==> (result matches Ok(Progress::Done(answer)) && answer@ == seq![
            5u8,
            0,
        ]),
        !methods.contains(0u8) ==> (result matches Err(SocksError::ProtocolError(reason)) && reason@
            == "NO AUTHENTICATION REQUIRED not supported"@),
{
    offers_need_the_open_method(methods);
    decided_offers_stay(seq![5u8, methods.len() as u8] + methods, rest);
}

/// A text is cut at its first separator, and what is behind it in the same way.
pub proof fn texts_are_cut(
    first: Seq<char>,
    separator: char,
    rest: &str,
    text: &str,
    cut: Vec<String>,
    cut_rest: Vec<String>,
)
    requires
        !first.contains(separator),
        text@ == first + seq![separator] + rest@,
        call_ensures(split, (text, separator), cut),
        call_ensures(split, (rest, separator), cut_rest),
    ensures
        cut@.len() == cut_rest@.len() + 1,
        cut@[0]@ == first,
        forall|i: int| 0 <= i < cut_rest@.len() ==> (#[trigger] cut@[i + 1])@ == cut_rest@[i]@,
{
    first_separator_ends_the_first_piece(first, separator, rest@);
    let pieces_of_text = texts(cut@);
    let pieces_of_rest = texts(cut_rest@);
    assert(pieces_of_text == seq![first] + pieces_of_rest);
    assert(pieces_of_text.len() == cut@.len());
    assert(pieces_of_rest.len() == cut_rest@.len());
    assert(pieces_of_text[0] == cut@[0]@);
    assert forall|i: int| 0 <= i < cut_rest@.len() implies (#[trigger] cut@[i + 1])@
        == cut_rest@[i]@ by {
        assert(pieces_of_text[i + 1] == cut@[i + 1]@);
        assert(pieces_of_rest[i] == cut_rest@[i]@);
    }
}

/// A text without a separator is left whole.
pub proof fn other_texts_are_left_whole(text: &str, separator: char, cut: Vec<String>)
    requires
        !text@.contains(separator),
        call_ensures(split, (text, separator), cut),
    ensures
        cut@.len() == 1,
        cut@[0]@ == text@,
{
    text_without_separators_is_one_piece(text@, separator);
    assert(texts(cut@).len() == cut@.len());
    assert(texts(cut@)[0] == cut@[0]@);
}

/// An open connection is reached, one that is not open is not, and whatever is put in its place
/// is reached from then on.
pub proof fn connections_are_reached<S>(
    connections: &mut Connections<S>,
    id: ConnectionId,
    reached: Option<&mut S>,
)
    requires
        call_ensures(Connections::<S>::get_mut, (connections, &id), reached),
    ensures
        reached is Some <==> old(connections)@.contains_key(id@),
        reached matches Some(sender) ==> *sender == old(connections)@[id@],
        reached matches Some(sender) ==> final(connections)@ == old(connections)@.insert(
            id@,
            *final(sender),
        ),
        reached is None ==> final(connections)@ == old(connections)@,
{
}

/// No connection is open at first.
pub proof fn no_connection_is_open_at_first<S>(
    connections: Connections<S>,
    id: ConnectionId,
    open: bool,
)
    requires
        call_ensures(Connections::<S>::new, (), connections),
        call_ensures(Connections::<S>::contains, (&connections, &id), open),
    ensures
        !open,
        connections.wf(),
{
}

/// Two keys make an identity, the default identity is all zeros, and what was decoded under the
/// human-readable part `nym` from the digits of 64 bytes is these bytes.
pub proof fn identities_are_made_of_keys(
    client: &[u8],
    gateway: &[u8],
    made: Identity,
    zero: Identity,
    hrp: String,
    digits: Vec<u8>,
    bytes: Seq<u8>,
    parsed: Result<Identity, IdentityParseError>,
)
    requires
        client@.len() == 32,
        gateway@.len() == 32,
        call_ensures(Identity::from_keys, (client, gateway), made),
        call_ensures(<Identity as Default>::default, (), zero),
        digits@ == base32_digits(bytes),
        call_ensures(Identity::from_decoded, (Ok((hrp, digits)),), parsed),
    ensures
        call_requires(Identity::from_keys, (client, gateway)),
        made.client@ == client@ && made.gateway@ == gateway@,
        forall|i: int| 0 <= i < 64 ==> zero@[i] == 0,
        call_requires(Identity::from_decoded, (Ok((hrp, digits)),)),
        hrp@ == "nym"@ && bytes.len() == 64 ==> (parsed matches Ok(identity) && identity@ == bytes),
        hrp@ == "nym"@ && bytes.len() != 64 ==> (parsed matches Err(
            IdentityParseError::WrongLenght(len),
        ) && len == bytes.len()),
        hrp@ != "nym"@ ==> (parsed matches Err(IdentityParseError::InvalidHRP(part)) && part@
            == hrp@),
{
    base32_round_trip(bytes);
    nothing_else_is_an_identity(hrp@, bytes, arbitrary());
    if bytes.len() == 64 {
        all_keys_are_identities(bytes);
    }
}

/// A new handshake of either server starts by asking for one byte.
pub proof fn handshakes_start(
    server: Server,
    fresh: Handshake,
    handshake: &mut Handshake,
    result: Result<HandshakeAction, SocksError>,
)
    requires
        call_ensures(Handshake::new, (server,), fresh),
        old(handshake)@ == fresh@,
        call_ensures(Handshake::advance, (handshake, HandshakeEvent::Started), result),
    ensures
        call_requires(Handshake::advance, (handshake, HandshakeEvent::Started)),
        result matches Ok(HandshakeAction::Read(more)) && more == 1,
        final(handshake)@.server == server,
        final(handshake)@.stage == (StageView::Offer { received: Seq::empty() }),
{
}

/// Once the last bytes of an offer have come in, it is answered if it lists the method without
/// authentication, and the request is asked for, from its first byte, when that is written.
/// Otherwise the handshake ends with the reason and without an answer.
pub proof fn handshakes_answer_offers(
    handshake: &mut Handshake,
    before: Seq<u8>,
    bytes: Vec<u8>,
    methods: Seq<u8>,
    result: Result<HandshakeAction, SocksError>,
    later: &mut Handshake,
    next: Result<HandshakeAction, SocksError>,
)
    requires
        methods.len() <= 255,
        before + bytes@ == seq![5u8, methods.len() as u8] + methods,
        old(handshake)@.stage == (StageView::Offer { received: before }),
        call_ensures(Handshake::advance, (handshake, HandshakeEvent::Received(bytes)), result),
        old(later)@ == final(handshake)@,
        methods.contains(0u8) ==> call_ensures(
            Handshake::advance,
            (later, HandshakeEvent::Written),
            next,
        ),
    ensures
        methods.contains(0u8) ==> {
            &&& result matches Ok(HandshakeAction::Answer(answer)) && answer@ == seq![5u8, 0]
            &&& call_requires(Handshake::advance, (later, HandshakeEvent::Written))
            &&& next matches Ok(HandshakeAction::Read(more)) && more == 1
            &&& final(later)@.stage == (StageView::Request { received: Seq::empty() })
            &&& final(later)@.server == old(handshake)@.server
        },
        !methods.contains(0u8) ==> {
            &&& result matches Err(SocksError::ProtocolError(reason)) && reason@
                == "NO AUTHENTICATION REQUIRED not supported"@
            &&& final(handshake)@.stage is Ended
        },
{
    offers_need_the_open_method(methods);
}

/// A proxy that has replied turns a client away if it asked for anything but a hidden service.
pub proof fn proxies_turn_others_away(
    handshake: &mut Handshake,
    request: RequestView,
    result: Result<HandshakeAction, SocksError>,
)
    requires
        old(handshake)@.server is Proxy,
        old(handshake)@.stage == (StageView::Replying { request }),
        forall|client: Seq<char>, gateway: Seq<char>|
            !#[trigger] is_service_name(request.fqdn, client, gateway),
        call_ensures(Handshake::advance, (handshake, HandshakeEvent::Written), result),
    ensures
        call_requires(Handshake::advance, (handshake, HandshakeEvent::Written)),
        result matches Err(SocksError::UnsupportedDestination),
        final(handshake)@.stage is Ended,
{
    other_host_names_name_nobody(request.fqdn);
}

} // verus!
