use nym_hs::message::packet_to_message;
use nym_hs::relay::{route_to_proxy, route_to_service, settle, Route};
use nym_hs::{Connections, Identity, Message, Packet, Payload, SocksError};

fn identity(client: u8, gateway: u8) -> Identity {
    Identity { client: [client; 32], gateway: [gateway; 32] }
}

/// What the mixnet delivers of a packet.
fn delivered(packet: &Packet) -> Message {
    match packet_to_message(packet) {
        Message::Binary(bytes) => Message::Binary(bytes[64..].to_vec()),
        other => panic!("{:?}", other),
    }
}

fn with_stream(stream: u8, payload: Payload) -> Message {
    delivered(&Packet { recipient: identity(1, 2), stream: [stream; 32], payload })
}

#[test]
fn connections_are_a_map() {
    let mut connections: Connections<u32> = Connections::new();
    assert!(!connections.contains(&[1; 32]));
    assert!(connections.get_mut(&[1; 32]).is_none());
    connections.insert([1; 32], 10);
    connections.insert([2; 32], 20);
    connections.insert([3; 32], 30);
    assert_eq!(connections.get_mut(&[1; 32]), Some(&mut 10));
    connections.insert([1; 32], 11);
    *connections.get_mut(&[2; 32]).unwrap() += 1;
    assert_eq!(connections.get_mut(&[1; 32]), Some(&mut 11));
    assert_eq!(connections.get_mut(&[2; 32]), Some(&mut 21));
    connections.remove(&[1; 32]);
    assert!(!connections.contains(&[1; 32]));
    assert!(connections.contains(&[2; 32]) && connections.contains(&[3; 32]));
    connections.remove(&[1; 32]);
    assert_eq!(connections.get_mut(&[3; 32]), Some(&mut 30));
    let mut near = [3; 32];
    near[31] = 4;
    assert!(!connections.contains(&near));
}

#[test]
fn sender_is_filled_in_when_a_connection_is_opened() {
    let opening = Packet::establish(identity(1, 2), [3; 32]);
    match &opening.payload {
        Payload::Establish { sender } => {
            assert_eq!(sender.client, [0; 32]);
            assert_eq!(sender.gateway, [0; 32]);
        }
        other => panic!("{:?}", other),
    }
    let opening = opening.sign(identity(7, 8));
    assert_eq!(opening.recipient.client, [1; 32]);
    assert_eq!(opening.stream, [3; 32]);
    match opening.payload {
        Payload::Establish { sender } => {
            assert_eq!(sender.client, [7; 32]);
            assert_eq!(sender.gateway, [8; 32]);
        }
        other => panic!("{:?}", other),
    }
    let other = Packet {
        recipient: identity(1, 2),
        stream: [3; 32],
        payload: Payload::Data { idx: 4, data: vec![5] },
    };
    let before = format!("{:?}", other);
    assert_eq!(format!("{:?}", other.sign(identity(7, 8))), before);
}

#[test]
fn services_learn_who_asks() {
    let connections: Connections<()> = Connections::new();
    let opening = Packet::establish(identity(1, 2), [3; 32]).sign(identity(7, 8));
    let (stream, route) = route_to_service(&connections, delivered(&opening)).unwrap();
    assert_eq!(stream, [3; 32]);
    match route {
        Route::Open { sender } => {
            assert_eq!(sender.client, [7; 32]);
            assert_eq!(sender.gateway, [8; 32]);
        }
        other => panic!("{:?}", other),
    }
}

#[test]
fn open_connections_get_their_payloads() {
    let mut connections: Connections<()> = Connections::new();
    connections.insert([3; 32], ());
    for open in [true, false] {
        let stream = if open { 3 } else { 4 };
        let message = || with_stream(stream, Payload::Data { idx: 1, data: vec![9] });
        for (id, route) in [
            route_to_proxy(&connections, message()).unwrap(),
            route_to_service(&connections, message()).unwrap(),
        ] {
            assert_eq!(id, [stream; 32]);
            match route {
                Route::Deliver(Payload::Data { idx: 1, data }) if open => assert_eq!(data, vec![9]),
                Route::Drop if !open => {}
                other => panic!("{:?}", other),
            }
        }
    }
}

#[test]
fn proxies_open_nothing() {
    let mut connections: Connections<()> = Connections::new();
    let opening = || with_stream(3, Payload::Establish { sender: identity(7, 8) });
    let (_, route) = route_to_proxy(&connections, opening()).unwrap();
    assert!(matches!(route, Route::Drop));
    connections.insert([3; 32], ());
    let (_, route) = route_to_proxy(&connections, opening()).unwrap();
    assert!(matches!(route, Route::Deliver(Payload::Establish { .. })));
}

#[test]
fn unreadable_messages_are_refused() {
    let connections: Connections<()> = Connections::new();
    assert!(matches!(
        route_to_proxy(&connections, Message::Close),
        Err(SocksError::ProtocolError("unexpected message"))
    ));
    assert!(matches!(
        route_to_service(&connections, Message::Binary(vec![0; 33])),
        Err(SocksError::ProtocolError("Decoding Error"))
    ));
}

#[test]
fn dead_connections_are_forgotten() {
    let mut connections: Connections<()> = Connections::new();
    connections.insert([3; 32], ());
    settle(&mut connections, &[3; 32], true);
    assert!(connections.contains(&[3; 32]));
    settle(&mut connections, &[3; 32], false);
    assert!(!connections.contains(&[3; 32]));
}

#[test]
fn services_hand_no_openings_to_endpoints() {
    let mut connections: Connections<()> = Connections::new();
    connections.insert([3; 32], ());
    for stream in [3, 4] {
        let opening = with_stream(stream, Payload::Establish { sender: identity(7, 8) });
        let (id, route) = route_to_service(&connections, opening).unwrap();
        assert_eq!(id, [stream; 32]);
        assert!(matches!(route, Route::Open { sender } if sender.gateway == [8; 32]));
    }
    let (_, route) =
        route_to_service(&connections, with_stream(3, Payload::Ack { idx: 5 })).unwrap();
    assert!(matches!(route, Route::Deliver(Payload::Ack { idx: 5 })));
}
