//! The bytes of packets and payloads.
//!
//! A packet is its recipient's two keys, its connection and its payload. A payload is the number
//! of its kind and its fields. Numbers are little-endian, and data has its length in front.

use vstd::prelude::*;

use crate::identity::Identity;
use crate::packet::{
    opening, openings_are_for_their_recipient, signed, Packet, PacketView, Payload, PayloadView,
};

verus! {

/// Why bytes are not what they should be, as the `bincode` crate reports it.
#[verifier::external_type_specification]
#[verifier::external_body]
pub struct ExBincodeErrorKind(bincode::ErrorKind);

/// The number of the kind of a payload that opens a connection.
pub const ESTABLISH: u32 = 0;

/// The number of the kind of a payload that carries data.
pub const DATA: u32 = 1;

/// The number of the kind of a payload that confirms data.
pub const ACK: u32 = 2;

/// `value` in `width` bytes, least significant byte first.
pub open spec fn le_bytes(value: nat, width: nat) -> Seq<u8>
    decreases width,
{
    if width == 0 {
        Seq::empty()
    } else {
        seq![(value % 256) as u8] + le_bytes(value / 256, (width - 1) as nat)
    }
}

/// The number that `bytes` are, least significant byte first.
pub open spec fn le_value(bytes: Seq<u8>) -> nat
    decreases bytes.len(),
{
    if bytes.len() == 0 {
        0
    } else {
        bytes[0] as nat + 256 * le_value(bytes.drop_first())
    }
}

/// The bytes of a payload.
pub open spec fn payload_bytes(payload: PayloadView) -> Seq<u8> {
    match payload {
        PayloadView::Establish { sender } => le_bytes(ESTABLISH as nat, 4) + sender,
        PayloadView::Data { idx, data } => le_bytes(DATA as nat, 4) + le_bytes(idx, 8) + le_bytes(
            data.len(),
            8,
        ) + data,
        PayloadView::Ack { idx } => le_bytes(ACK as nat, 4) + le_bytes(idx, 8),
    }
}

/// The bytes of a packet.
pub open spec fn packet_bytes(packet: PacketView) -> Seq<u8> {
    packet.recipient + packet.stream + payload_bytes(packet.payload)
}

/// The number in the first four bytes, which tells the kind of a payload.
pub open spec fn kind_in(bytes: Seq<u8>) -> nat {
    le_value(bytes.take(4))
}

/// The number in the eight bytes behind the kind.
pub open spec fn idx_in(bytes: Seq<u8>) -> nat {
    le_value(bytes.subrange(4, 12))
}

/// Where the data ends that has its length in the eight bytes behind kind and number.
pub open spec fn data_end(bytes: Seq<u8>) -> int {
    20 + le_value(bytes.subrange(12, 20)) as int
}

/// Whether `bytes` start with a kind and a `usize`.
pub open spec fn holds_idx(bytes: Seq<u8>) -> bool {
    bytes.len() >= 12 && idx_in(bytes) <= usize::MAX
}

/// Whether `bytes` start with a kind, a `usize` and data.
pub open spec fn holds_data(bytes: Seq<u8>) -> bool {
    holds_idx(bytes) && bytes.len() >= 20 && bytes.len() >= data_end(bytes)
}

/// The payload that `bytes` start with, if they do.
pub open spec fn payload_in(bytes: Seq<u8>) -> Option<PayloadView> {
    if bytes.len() < 4 {
        None
    } else if kind_in(bytes) == ESTABLISH && bytes.len() >= 68 {
        Some(PayloadView::Establish { sender: bytes.subrange(4, 68) })
    } else if kind_in(bytes) == DATA && holds_data(bytes) {
        Some(PayloadView::Data { idx: idx_in(bytes), data: bytes.subrange(20, data_end(bytes)) })
    } else if kind_in(bytes) == ACK && holds_idx(bytes) {
        Some(PayloadView::Ack { idx: idx_in(bytes) })
    } else {
        None
    }
}

/// Whether a payload can be held in memory: its numbers are machine integers, and an identity is
/// two keys.
pub open spec fn is_payload(payload: PayloadView) -> bool {
    match payload {
        PayloadView::Establish { sender } => sender.len() == 64,
        PayloadView::Data { idx, data } => idx <= usize::MAX && data.len() <= usize::MAX,
        PayloadView::Ack { idx } => idx <= usize::MAX,
    }
}

/// Whether a packet can be held in memory.
pub open spec fn is_packet(packet: PacketView) -> bool {
    packet.recipient.len() == 64 && packet.stream.len() == 32 && is_payload(packet.payload)
}

/// Every packet is one that can be held in memory.
pub proof fn packets_are_held_in_memory(packet: Packet)
    ensures
        is_packet(packet@),
{
    if let Payload::Data { data, .. } = packet.payload {
        assert(data@.len() == data.len());
    }
}

/// Whether one vector can hold the bytes of a packet: its data and the 116 bytes around them.
pub open spec fn fits_message(packet: PacketView) -> bool {
    packet.payload matches PayloadView::Data { data, .. } ==> data.len() + 116 <= isize::MAX
}

/// Calls `bincode::serialize` on the fields of a packet that opens a connection: the keys as they
/// are and the kind in four bytes, one after another. It never fails.
#[verifier::external_body]
fn serialize_establish(
    recipient: (&[u8; 32], &[u8; 32]),
    stream: &[u8; 32],
    kind: u32,
    sender: (&[u8; 32], &[u8; 32]),
) -> (result: Result<Vec<u8>, bincode::Error>)
    ensures
        result is Ok,
        result->Ok_0@ == recipient.0@ + recipient.1@ + stream@ + le_bytes(kind as nat, 4)
            + sender.0@ + sender.1@,
{
    bincode::serialize(&(recipient, stream, kind, sender))
}

/// Calls `bincode::serialize` on the fields of a packet that carries data: the keys as they are,
/// the kind in four bytes, the chunk's number and the data's length in eight bytes each, and the
/// data, one after another. It never fails where a vector can hold the bytes.
#[verifier::external_body]
fn serialize_data(
    recipient: (&[u8; 32], &[u8; 32]),
    stream: &[u8; 32],
    kind: u32,
    idx: usize,
    data: &Vec<u8>,
) -> (result: Result<Vec<u8>, bincode::Error>)
    requires
        data@.len() + 116 <= isize::MAX,
    ensures
        result is Ok,
        result->Ok_0@ == recipient.0@ + recipient.1@ + stream@ + le_bytes(kind as nat, 4)
            + le_bytes(idx as nat, 8) + le_bytes(data@.len(), 8) + data@,
{
    bincode::serialize(&(recipient, stream, kind, idx, data))
}

/// Calls `bincode::serialize` on the fields of a packet that confirms data: the keys as they are,
/// the kind in four bytes and the chunk's number in eight, one after another. It never fails.
#[verifier::external_body]
fn serialize_ack(
    recipient: (&[u8; 32], &[u8; 32]),
    stream: &[u8; 32],
    kind: u32,
    idx: usize,
) -> (result: Result<Vec<u8>, bincode::Error>)
    ensures
        result is Ok,
        result->Ok_0@ == recipient.0@ + recipient.1@ + stream@ + le_bytes(kind as nat, 4)
            + le_bytes(idx as nat, 8),
{
    bincode::serialize(&(recipient, stream, kind, idx))
}

/// Calls `bincode::deserialize` for a `u32`: the number in the first four bytes, or an error if
/// there are fewer. What follows is ignored.
#[verifier::external_body]
fn deserialize_kind(bytes: &[u8]) -> (result: Result<u32, bincode::Error>)
    ensures
        result is Ok <==> bytes@.len() >= 4,
        result matches Ok(kind) ==> kind == kind_in(bytes@),
{
    bincode::deserialize(bytes)
}

/// Calls `bincode::deserialize` for a `u32` and two keys: the first 68 bytes, or an error if
/// there are fewer. What follows is ignored.
#[verifier::external_body]
fn deserialize_establish(bytes: &[u8]) -> (result: Result<
    (u32, [u8; 32], [u8; 32]),
    bincode::Error,
>)
    ensures
        result is Ok <==> bytes@.len() >= 68,
        result matches Ok(fields) ==> fields.0 == kind_in(bytes@) && fields.1@
            == bytes@.subrange(4, 36) && fields.2@ == bytes@.subrange(36, 68),
{
    bincode::deserialize(bytes)
}

/// Calls `bincode::deserialize` for a `u32`, a `usize` and a vector of bytes, the vector with its
/// length in front. An error if there are too few bytes or the number is no `usize`. What follows
/// is ignored.
#[verifier::external_body]
fn deserialize_data(bytes: &[u8]) -> (result: Result<(u32, usize, Vec<u8>), bincode::Error>)
    ensures
        result is Ok <==> holds_data(bytes@),
        result matches Ok(fields) ==> fields.0 == kind_in(bytes@) && fields.1 == idx_in(bytes@)
            && fields.2@ == bytes@.subrange(20, data_end(bytes@)),
{
    bincode::deserialize(bytes)
}

/// Calls `bincode::deserialize` for a `u32` and a `usize`: the first twelve bytes. An error if
/// there are fewer or the number is no `usize`. What follows is ignored.
#[verifier::external_body]
fn deserialize_ack(bytes: &[u8]) -> (result: Result<(u32, usize), bincode::Error>)
    ensures
        result is Ok <==> holds_idx(bytes@),
        result matches Ok(fields) ==> fields.0 == kind_in(bytes@) && fields.1 == idx_in(bytes@),
{
    bincode::deserialize(bytes)
}

/// The bytes of `packet`.
pub fn encode_packet(packet: &Packet) -> (bytes: Vec<u8>)
    requires
        fits_message(packet@),
    ensures
        bytes@ == packet_bytes(packet@),
{
    let recipient = (&packet.recipient.client, &packet.recipient.gateway);
    let bytes = match &packet.payload {
        Payload::Establish { sender } => serialize_establish(
            recipient,
            &packet.stream,
            ESTABLISH,
            (&sender.client, &sender.gateway),
        ).unwrap(),
        Payload::Data { idx, data } => {
            serialize_data(recipient, &packet.stream, DATA, *idx, data).unwrap()
        },
        Payload::Ack { idx } => serialize_ack(recipient, &packet.stream, ACK, *idx).unwrap(),
    };
    assert(bytes@ =~= packet_bytes(packet@));
    bytes
}

/// The payload that `bytes` start with.
pub fn decode_payload(bytes: &[u8]) -> (payload: Option<Payload>)
    ensures
        match payload {
            Some(payload) => payload_in(bytes@) == Some(payload@),
            None => payload_in(bytes@) is None,
        },
{
    let kind = match deserialize_kind(bytes) {
        Ok(kind) => kind,
        Err(_) => return None,
    };
    match kind {
        ESTABLISH => match deserialize_establish(bytes) {
            Ok((_, client, gateway)) => {
                let sender = Identity { client, gateway };
                assert(sender@ =~= bytes@.subrange(4, 68));
                Some(Payload::Establish { sender })
            },
            Err(_) => None,
        },
        DATA => match deserialize_data(bytes) {
            Ok((_, idx, data)) => Some(Payload::Data { idx, data }),
            Err(_) => None,
        },
        ACK => match deserialize_ack(bytes) {
            Ok((_, idx)) => Some(Payload::Ack { idx }),
            Err(_) => None,
        },
        _ => None,
    }
}

/// The least number that takes more than `width` bytes.
pub open spec fn le_bound(width: nat) -> nat
    decreases width,
{
    if width == 0 {
        1
    } else {
        256 * le_bound((width - 1) as nat)
    }
}

/// A number that fits its bytes is the number that those bytes are.
pub proof fn le_round_trip(value: nat, width: nat)
    requires
        value < le_bound(width),
    ensures
        le_bytes(value, width).len() == width,
        le_value(le_bytes(value, width)) == value,
    decreases width,
{
    if width > 0 {
        let rest = le_bytes(value / 256, (width - 1) as nat);
        le_round_trip(value / 256, (width - 1) as nat);
        assert(le_bytes(value, width).drop_first() =~= rest);
    }
}

proof fn machine_integers_fit()
    ensures
        le_bound(4) == 0x1_0000_0000,
        le_bound(8) == 0x1_0000_0000_0000_0000,
{
    reveal_with_fuel(le_bound, 9);
}

/// A payload is read back from its bytes, whatever follows them.
pub proof fn payload_round_trip(payload: PayloadView, rest: Seq<u8>)
    requires
        is_payload(payload),
    ensures
        payload_in(payload_bytes(payload) + rest) == Some(payload),
{
    machine_integers_fit();
    let bytes = payload_bytes(payload) + rest;
    match payload {
        PayloadView::Establish { sender } => {
            le_round_trip(ESTABLISH as nat, 4);
            assert(bytes.take(4) =~= le_bytes(ESTABLISH as nat, 4));
            assert(bytes.subrange(4, 68) =~= sender);
        },
        PayloadView::Data { idx, data } => {
            le_round_trip(DATA as nat, 4);
            le_round_trip(idx, 8);
            le_round_trip(data.len(), 8);
            assert(bytes.take(4) =~= le_bytes(DATA as nat, 4));
            assert(bytes.subrange(4, 12) =~= le_bytes(idx, 8));
            assert(bytes.subrange(12, 20) =~= le_bytes(data.len(), 8));
            assert(bytes.subrange(20, data_end(bytes)) =~= data);
        },
        PayloadView::Ack { idx } => {
            le_round_trip(ACK as nat, 4);
            le_round_trip(idx, 8);
            assert(bytes.take(4) =~= le_bytes(ACK as nat, 4));
            assert(bytes.subrange(4, 12) =~= le_bytes(idx, 8));
        },
    }
}

/// Bytes are the bytes of the number that they are.
proof fn le_bytes_of_value(bytes: Seq<u8>)
    ensures
        le_bytes(le_value(bytes), bytes.len()) == bytes,
        le_value(bytes) < le_bound(bytes.len()),
    decreases bytes.len(),
{
    if bytes.len() > 0 {
        let rest = bytes.drop_first();
        le_bytes_of_value(rest);
        let value = le_value(bytes);
        assert(value == bytes[0] as nat + 256 * le_value(rest));
        assert(value % 256 == bytes[0] as nat);
        assert(value / 256 == le_value(rest));
        assert(le_bytes(value, bytes.len()) =~= bytes);
    } else {
        assert(le_bytes(0, 0) =~= bytes);
    }
}

/// What is read as a payload is exactly the bytes of that payload, with anything behind them.
pub proof fn payloads_are_read_as_they_are_written(bytes: Seq<u8>)
    ensures
        payload_in(bytes) matches Some(payload) ==> payload_bytes(payload).is_prefix_of(bytes),
{
    if bytes.len() >= 4 {
        le_bytes_of_value(bytes.take(4));
        assert(bytes.take(4) == le_bytes(kind_in(bytes), 4));
        if bytes.len() >= 12 {
            le_bytes_of_value(bytes.subrange(4, 12));
        }
        if bytes.len() >= 20 {
            le_bytes_of_value(bytes.subrange(12, 20));
        }
        if let Some(payload) = payload_in(bytes) {
            let len = payload_bytes(payload).len() as int;
            assert(payload_bytes(payload) =~= bytes.subrange(0, len));
        }
    }
}

/// Bytes are read as a payload if and only if they start with the bytes of one.
pub proof fn only_payloads_are_read(bytes: Seq<u8>, payload: PayloadView)
    requires
        is_payload(payload),
    ensures
        payload_in(bytes) == Some(payload) <==> payload_bytes(payload).is_prefix_of(bytes),
{
    let len = payload_bytes(payload).len() as int;
    if payload_bytes(payload).is_prefix_of(bytes) {
        payload_round_trip(payload, bytes.skip(len));
        assert(payload_bytes(payload) + bytes.skip(len) =~= bytes);
    }
    payloads_are_read_as_they_are_written(bytes);
}

/// Where the parts of a payload stand: a kind in four bytes, zero for an opening, one for a chunk
/// and two for a confirmation; behind it the two keys of the sender, or the number of the chunk in
/// eight bytes; and of a chunk its length in eight bytes and its data.
pub proof fn payloads_have_this_layout(sender: Seq<u8>, idx: nat, data: Seq<u8>)
    requires
        idx <= usize::MAX,
        data.len() <= usize::MAX,
    ensures
        payload_bytes(PayloadView::Establish { sender }) == seq![0u8, 0, 0, 0] + sender,
        ({
            let bytes = payload_bytes(PayloadView::Ack { idx });
            &&& bytes.len() == 12
            &&& bytes.take(4) == seq![2u8, 0, 0, 0]
            &&& le_value(bytes.skip(4)) == idx
        }),
        ({
            let bytes = payload_bytes(PayloadView::Data { idx, data });
            &&& bytes.len() == 20 + data.len()
            &&& bytes.take(4) == seq![1u8, 0, 0, 0]
            &&& le_value(bytes.subrange(4, 12)) == idx
            &&& le_value(bytes.subrange(12, 20)) == data.len()
            &&& bytes.skip(20) == data
        }),
{
    machine_integers_fit();
    reveal_with_fuel(le_bytes, 5);
    assert(le_bytes(0, 4) =~= seq![0u8, 0, 0, 0]);
    assert(le_bytes(1, 4) =~= seq![1u8, 0, 0, 0]);
    assert(le_bytes(2, 4) =~= seq![2u8, 0, 0, 0]);
    le_round_trip(idx, 8);
    le_round_trip(data.len(), 8);
    let ack = payload_bytes(PayloadView::Ack { idx });
    assert(ack.take(4) =~= seq![2u8, 0, 0, 0]);
    assert(ack.skip(4) =~= le_bytes(idx, 8));
    let chunk = payload_bytes(PayloadView::Data { idx, data });
    assert(chunk.take(4) =~= seq![1u8, 0, 0, 0]);
    assert(chunk.subrange(4, 12) =~= le_bytes(idx, 8));
    assert(chunk.subrange(12, 20) =~= le_bytes(data.len(), 8));
    assert(chunk.skip(20) =~= data);
}

/// A packet is its recipient, its connection and its payload, in this order.
pub proof fn packets_have_this_layout(packet: PacketView)
    requires
        packet.recipient.len() == 64,
        packet.stream.len() == 32,
    ensures
        packet_bytes(packet).take(64) == packet.recipient,
        packet_bytes(packet).subrange(64, 96) == packet.stream,
        packet_bytes(packet).skip(96) == payload_bytes(packet.payload),
{
    assert(packet_bytes(packet).take(64) =~= packet.recipient);
    assert(packet_bytes(packet).subrange(64, 96) =~= packet.stream);
    assert(packet_bytes(packet).skip(96) =~= payload_bytes(packet.payload));
}

/// The opening packet that `us` sends is the recipient's keys, the connection, the kind of an
/// opening and the keys of `us`.
pub proof fn openings_have_these_bytes(recipient: Seq<u8>, stream: Seq<u8>, us: Seq<u8>)
    requires
        recipient.len() == 64,
        stream.len() == 32,
    ensures
        packet_bytes(signed(opening(recipient, stream), us)) == recipient + stream + seq![
            0u8,
            0,
            0,
            0,
        ] + us,
        packet_bytes(signed(opening(recipient, stream), us)).take(64) == recipient,
{
    openings_are_for_their_recipient(recipient, stream, us);
    payloads_have_this_layout(us, 0, Seq::empty());
    packets_have_this_layout(signed(opening(recipient, stream), us));
    assert(packet_bytes(signed(opening(recipient, stream), us)) =~= recipient + stream + seq![
        0u8,
        0,
        0,
        0,
    ] + us);
}

/// Only the data of a chunk can make a packet too long: openings and confirmations always fit a
/// message, and chunks do up to the longest vector.
pub proof fn packets_fit_messages(packet: PacketView)
    ensures
        packet.payload is Establish || packet.payload is Ack ==> fits_message(packet),
        packet.payload matches PayloadView::Data { data, .. } ==> (fits_message(packet)
            <==> data.len() <= isize::MAX - 116),
{
}

} // verus!
