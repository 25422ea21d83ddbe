use nym_hs::codec::{decode_payload, encode_packet};
use nym_hs::message::packet_to_message;
use nym_hs::{
    message_to_stream_payload, message_to_string, Identity, Message, Packet, Payload, SocksError,
};
use serde::ser::{Serialize, SerializeStruct, SerializeStructVariant, Serializer};

fn identity(client: u8, gateway: u8) -> Identity {
    Identity { client: [client; 32], gateway: [gateway; 32] }
}

fn packet(payload: Payload) -> Packet {
    Packet { recipient: identity(1, 2), stream: [3; 32], payload }
}

/// The packet as serde sees a struct or an enum.
struct Seen<'a, T>(&'a T);

impl Serialize for Seen<'_, Identity> {
    fn serialize<S: Serializer>(&self, serializer: S) -> Result<S::Ok, S::Error> {
        let mut fields = serializer.serialize_struct("Identity", 2)?;
        fields.serialize_field("client", &self.0.client)?;
        fields.serialize_field("gateway", &self.0.gateway)?;
        fields.end()
    }
}

impl Serialize for Seen<'_, Payload> {
    fn serialize<S: Serializer>(&self, serializer: S) -> Result<S::Ok, S::Error> {
        match self.0 {
            Payload::Establish { sender } => {
                let mut fields =
                    serializer.serialize_struct_variant("Payload", 0, "Establish", 1)?;
                fields.serialize_field("sender", &Seen(sender))?;
                fields.end()
            }
            Payload::Data { idx, data } => {
                let mut fields = serializer.serialize_struct_variant("Payload", 1, "Data", 2)?;
                fields.serialize_field("idx", idx)?;
                fields.serialize_field("data", data)?;
                fields.end()
            }
            Payload::Ack { idx } => {
                let mut fields = serializer.serialize_struct_variant("Payload", 2, "Ack", 1)?;
                fields.serialize_field("idx", idx)?;
                fields.end()
            }
        }
    }
}

impl Serialize for Seen<'_, Packet> {
    fn serialize<S: Serializer>(&self, serializer: S) -> Result<S::Ok, S::Error> {
        let mut fields = serializer.serialize_struct("Packet", 3)?;
        fields.serialize_field("recipient", &Seen(&self.0.recipient))?;
        fields.serialize_field("stream", &self.0.stream)?;
        fields.serialize_field("payload", &Seen(&self.0.payload))?;
        fields.end()
    }
}

fn samples() -> Vec<Payload> {
    vec![
        Payload::Establish { sender: identity(4, 5) },
        Payload::Data { idx: 1, data: Vec::new() },
        Payload::Data { idx: 0x0102_0304, data: b"hello".to_vec() },
        Payload::Data { idx: usize::MAX, data: vec![7; 500] },
        Payload::Ack { idx: 0 },
        Payload::Ack { idx: usize::MAX },
    ]
}

#[test]
fn packets_have_the_bytes_of_their_structs() {
    for payload in samples() {
        let packet = packet(payload);
        assert_eq!(encode_packet(&packet), bincode::serialize(&Seen(&packet)).unwrap());
    }
}

#[test]
fn packets_have_these_bytes() {
    let mut expected = [[1u8; 32], [2u8; 32], [3u8; 32]].concat();
    expected.extend_from_slice(&[1, 0, 0, 0]);
    expected.extend_from_slice(&[2, 1, 0, 0, 0, 0, 0, 0]);
    expected.extend_from_slice(&[3, 0, 0, 0, 0, 0, 0, 0]);
    expected.extend_from_slice(b"abc");
    let sent = packet(Payload::Data { idx: 258, data: b"abc".to_vec() });
    assert_eq!(encode_packet(&sent), expected);

    let mut expected = [[1u8; 32], [2u8; 32], [3u8; 32]].concat();
    expected.extend_from_slice(&[2, 0, 0, 0, 9, 0, 0, 0, 0, 0, 0, 0]);
    assert_eq!(encode_packet(&packet(Payload::Ack { idx: 9 })), expected);

    let mut expected = [[1u8; 32], [2u8; 32], [3u8; 32]].concat();
    expected.extend_from_slice(&[0, 0, 0, 0]);
    expected.extend_from_slice(&[[4u8; 32], [5u8; 32]].concat());
    let sent = packet(Payload::Establish { sender: identity(4, 5) });
    assert_eq!(encode_packet(&sent), expected);
}

#[test]
fn packets_arrive_as_sent() {
    for payload in samples() {
        let sent = packet(payload);
        let bytes = match packet_to_message(&sent) {
            Message::Binary(bytes) => bytes,
            other => panic!("{:?}", other),
        };
        assert_eq!(bytes[..32], [1; 32]);
        assert_eq!(bytes[32..64], [2; 32]);
        let delivered = Message::Binary(bytes[64..].to_vec());
        let (stream, payload) = message_to_stream_payload(delivered).unwrap();
        assert_eq!(stream, sent.stream);
        assert_eq!(format!("{:?}", payload), format!("{:?}", sent.payload));
    }
}

#[test]
fn payloads_ignore_what_follows_them() {
    for payload in samples() {
        let mut bytes = bincode::serialize(&Seen(&payload)).unwrap();
        bytes.extend_from_slice(&[0xff; 9]);
        let decoded = decode_payload(&bytes).unwrap();
        assert_eq!(format!("{:?}", decoded), format!("{:?}", payload));
    }
}

#[test]
fn cut_payloads_do_not_decode() {
    for payload in samples() {
        let bytes = bincode::serialize(&Seen(&payload)).unwrap();
        for len in 0..bytes.len() {
            assert!(decode_payload(&bytes[..len]).is_none());
        }
    }
}

#[test]
fn unknown_kinds_do_not_decode() {
    let mut bytes = vec![0u8; 100];
    bytes[0] = 3;
    assert!(decode_payload(&bytes).is_none());
    bytes[0] = 0;
    bytes[3] = 1;
    assert!(decode_payload(&bytes).is_none());
}

#[test]
fn messages_that_name_no_payload_are_refused() {
    for message in [
        Message::Text("text".to_string()),
        Message::Ping(vec![0; 40]),
        Message::Pong(vec![0; 40]),
        Message::Close,
    ] {
        assert!(matches!(
            message_to_stream_payload(message),
            Err(SocksError::ProtocolError("unexpected message"))
        ));
    }
    assert!(matches!(
        message_to_stream_payload(Message::Binary(vec![0; 32])),
        Err(SocksError::ProtocolError("Decoding Error"))
    ));
    let mut bytes = vec![0; 100];
    bytes[32] = 9;
    assert!(matches!(
        message_to_stream_payload(Message::Binary(bytes)),
        Err(SocksError::ProtocolError("Decoding Error"))
    ));
}

#[test]
fn text_is_found_in_text_and_in_bytes() {
    assert_eq!(message_to_string(Message::Text("h\u{e9}".to_string())).unwrap(), "h\u{e9}");
    assert_eq!(message_to_string(Message::Binary(vec![b'h', 0xc3, 0xa9])).unwrap(), "h\u{e9}");
    assert!(matches!(
        message_to_string(Message::Binary(vec![0xc3])),
        Err(SocksError::ProtocolError("invalid UTF8"))
    ));
    for message in [Message::Ping(Vec::new()), Message::Pong(Vec::new()), Message::Close] {
        assert!(matches!(
            message_to_string(message),
            Err(SocksError::ProtocolError("unexpected message"))
        ));
    }
}

#[test]
fn clones_are_equal() {
    for payload in samples() {
        let original = packet(payload);
        assert_eq!(format!("{:?}", original.clone()), format!("{:?}", original));
    }
}
