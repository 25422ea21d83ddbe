//! The messages that the Nym client exchanges with its users over a web socket.

use vstd::prelude::*;
use vstd::slice::slice_subrange;
use vstd::utf8::{
    decode_utf8, encode_utf8, encode_utf8_decode_utf8, encode_utf8_valid_utf8, valid_utf8,
};

use crate::codec::{
    decode_payload, encode_packet, fits_message, is_packet, is_payload, packet_bytes,
    payload_bytes, payload_in, payload_round_trip, payloads_are_read_as_they_are_written,
};
use crate::error::{reports, SocksError};
use crate::identity::key;
use crate::packet::{ConnectionId, Packet, PacketView, Payload, PayloadView};

verus! {

/// A message of a web socket.
#[derive(Debug)]
pub enum Message {
    Text(String),
    Binary(Vec<u8>),
    Ping(Vec<u8>),
    Pong(Vec<u8>),
    Close,
}

/// The mathematical content of a [`Message`].
#[verifier::ext_equal]
pub enum MessageView {
    Text(Seq<char>),
    Binary(Seq<u8>),
    Ping(Seq<u8>),
    Pong(Seq<u8>),
    Close,
}

impl View for Message {
    type V = MessageView;

    open spec fn view(&self) -> MessageView {
        match *self {
            Message::Text(text) => MessageView::Text(text@),
            Message::Binary(bytes) => MessageView::Binary(bytes@),
            Message::Ping(bytes) => MessageView::Ping(bytes@),
            Message::Pong(bytes) => MessageView::Pong(bytes@),
            Message::Close => MessageView::Close,
        }
    }
}

/// The text in a message, or why there is none.
pub open spec fn text_in(msg: MessageView) -> Result<Seq<char>, Seq<char>> {
    match msg {
        MessageView::Text(text) => Ok(text),
        MessageView::Binary(bytes) => if valid_utf8(bytes) {
            Ok(decode_utf8(bytes))
        } else {
            Err("invalid UTF8"@)
        },
        _ => Err("unexpected message"@),
    }
}

/// The connection and the payload in a message, or why there are none.
pub open spec fn stream_payload_in(msg: MessageView) -> Result<
    (Seq<u8>, PayloadView),
    Seq<char>,
> {
    match msg {
        MessageView::Binary(bytes) => match payload_in(bytes.skip(32)) {
            Some(payload) => Ok((bytes.take(32), payload)),
            None => Err("Decoding Error"@),
        },
        _ => Err("unexpected message"@),
    }
}

/// Whether a message, if it is binary, is long enough to name a connection.
pub open spec fn names_stream(msg: MessageView) -> bool {
    msg matches MessageView::Binary(bytes) ==> bytes.len() >= 32
}

/// The text of a message, be it sent as text or as bytes.
pub fn message_to_string(msg: Message) -> (result: Result<String, SocksError>)
    ensures
        reports(result, text_in(msg@)),
{
    match msg {
        Message::Text(command) => Ok(command),
        Message::Binary(bin) => match String::from_utf8(bin) {
            Ok(command) => Ok(command),
            Err(_) => Err(SocksError::ProtocolError("invalid UTF8")),
        },
        _ => Err(SocksError::ProtocolError("unexpected message")),
    }
}

/// The connection that a message belongs to, and its payload.
pub fn message_to_stream_payload(msg: Message) -> (result: Result<
    (ConnectionId, Payload),
    SocksError,
>)
    requires
        names_stream(msg@),
    ensures
        reports(result, stream_payload_in(msg@)),
{
    let bytes = match msg {
        Message::Binary(bin) => bin,
        _ => return Err(SocksError::ProtocolError("unexpected message")),
    };
    let id: ConnectionId = key(slice_subrange(bytes.as_slice(), 0, 32));
    let rest = slice_subrange(bytes.as_slice(), 32, bytes.len());
    assert(id@ =~= bytes@.take(32));
    assert(rest@ =~= bytes@.skip(32));
    match decode_payload(rest) {
        Some(payload) => Ok((id, payload)),
        None => Err(SocksError::ProtocolError("Decoding Error")),
    }
}

/// The message that hands `packet` to the mixnet.
pub fn packet_to_message(packet: &Packet) -> (msg: Message)
    requires
        fits_message(packet@),
    ensures
        msg@ == MessageView::Binary(packet_bytes(packet@)),
{
    Message::Binary(encode_packet(packet))
}

/// The mixnet takes the recipient off a packet and delivers the rest. The recipient then reads
/// the connection and the payload that the sender put in.
pub proof fn packets_arrive_as_sent(packet: PacketView)
    requires
        is_packet(packet),
    ensures
        packet_bytes(packet).take(64) == packet.recipient,
        ({
            let delivered = MessageView::Binary(packet_bytes(packet).skip(64));
            &&& names_stream(delivered)
            &&& stream_payload_in(delivered) == Ok::<(Seq<u8>, PayloadView), Seq<char>>(
                (packet.stream, packet.payload),
            )
        }),
{
    let delivered = packet_bytes(packet).skip(64);
    let payload = payload_bytes(packet.payload);
    assert(packet_bytes(packet).take(64) =~= packet.recipient);
    assert(delivered.take(32) =~= packet.stream);
    assert(delivered.skip(32) =~= payload + Seq::<u8>::empty());
    payload_round_trip(packet.payload, Seq::<u8>::empty());
}

/// A text is found in a message whether it is sent as text or as the bytes of its UTF-8. Bytes
/// that are no UTF-8 are refused as such, and messages of any other kind as unexpected.
pub proof fn texts_are_found_in_both_forms(text: Seq<char>, bytes: Seq<u8>)
    ensures
        text_in(MessageView::Text(text)) == Ok::<Seq<char>, Seq<char>>(text),
        text_in(MessageView::Binary(encode_utf8(text))) == Ok::<Seq<char>, Seq<char>>(text),
        text_in(MessageView::Binary(bytes)) is Ok <==> valid_utf8(bytes),
        !valid_utf8(bytes) ==> text_in(MessageView::Binary(bytes)) == Err::<Seq<char>, Seq<char>>(
            "invalid UTF8"@,
        ),
        text_in(MessageView::Ping(bytes)) == Err::<Seq<char>, Seq<char>>("unexpected message"@),
        text_in(MessageView::Pong(bytes)) == Err::<Seq<char>, Seq<char>>("unexpected message"@),
        text_in(MessageView::Close) == Err::<Seq<char>, Seq<char>>("unexpected message"@),
{
    encode_utf8_valid_utf8(text);
    encode_utf8_decode_utf8(text);
}

/// A binary message is the 32 bytes of a connection and the bytes of a payload, whatever follows
/// them.
pub proof fn binary_messages_carry_payloads(
    stream: Seq<u8>,
    payload: PayloadView,
    rest: Seq<u8>,
)
    requires
        stream.len() == 32,
        is_payload(payload),
    ensures
        names_stream(MessageView::Binary(stream + payload_bytes(payload) + rest)),
        stream_payload_in(MessageView::Binary(stream + payload_bytes(payload) + rest)) == Ok::<
            (Seq<u8>, PayloadView),
            Seq<char>,
        >((stream, payload)),
{
    let bytes = stream + payload_bytes(payload) + rest;
    assert(bytes.take(32) =~= stream);
    assert(bytes.skip(32) =~= payload_bytes(payload) + rest);
    payload_round_trip(payload, rest);
}

/// Nothing else carries a payload: a binary message without the bytes of one is refused as
/// undecodable, and messages of any other kind as unexpected. Only a binary message can be too
/// short to name a connection.
pub proof fn other_messages_carry_none(msg: MessageView)
    ensures
        msg matches MessageView::Binary(bytes) ==> {
            &&& names_stream(msg) <==> bytes.len() >= 32
            &&& stream_payload_in(msg) matches Ok((stream, payload)) ==> bytes.len() >= 32 ==> (
            stream + payload_bytes(payload)).is_prefix_of(bytes)
            &&& stream_payload_in(msg) matches Err(reason) ==> reason == "Decoding Error"@
            &&& stream_payload_in(msg) is Ok <==> payload_in(bytes.skip(32)) is Some
        },
        msg !is Binary ==> names_stream(msg) && stream_payload_in(msg) == Err::<
            (Seq<u8>, PayloadView),
            Seq<char>,
        >("unexpected message"@),
{
    if let MessageView::Binary(bytes) = msg {
        if let Ok((stream, payload)) = stream_payload_in(msg) {
            if bytes.len() >= 32 {
                payloads_are_read_as_they_are_written(bytes.skip(32));
                let whole = stream + payload_bytes(payload);
                assert(whole =~= bytes.subrange(0, whole.len() as int));
            }
        }
    }
}

} // verus!
