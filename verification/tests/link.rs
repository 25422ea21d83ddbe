use nym_hs::link::{Link, LinkAction, LinkEvent};
use nym_hs::message::packet_to_message;
use nym_hs::{Identity, Message, Packet, Payload};

fn identity(client: u8, gateway: u8) -> Identity {
    Identity { client: [client; 32], gateway: [gateway; 32] }
}

fn packet(payload: Payload) -> Packet {
    Packet { recipient: identity(1, 2), stream: [3; 32], payload }
}

fn bytes_of(message: Message) -> Vec<u8> {
    match message {
        Message::Binary(bytes) => bytes,
        other => panic!("{:?}", other),
    }
}

fn bytes_sent(action: LinkAction) -> Vec<u8> {
    match action {
        LinkAction::Send(message) => bytes_of(message),
        other => panic!("{:?}", other),
    }
}

fn incoming(byte: u8) -> LinkEvent {
    LinkEvent::Incoming(Message::Binary(vec![byte; 40]))
}

#[test]
fn packets_go_out_one_at_a_time_and_in_order() {
    for mut link in [Link::of_proxy(identity(7, 8)), Link::of_service()] {
        for idx in 1..5 {
            let chunk = || packet(Payload::Data { idx, data: vec![idx as u8; idx] });
            assert!(!link.is_awaiting());
            let event = LinkEvent::Outgoing(chunk());
            assert!(link.can_handle(&event));
            let sent = bytes_sent(link.handle(event));
            assert_eq!(sent, bytes_of(packet_to_message(&chunk())));
            assert_eq!(sent[96..100], [1, 0, 0, 0]);
            assert_eq!(sent[100], idx as u8);

            assert!(link.is_awaiting());
            assert!(!link.can_handle(&LinkEvent::Outgoing(chunk())));
            assert!(link.can_handle(&incoming(1)));
            assert!(matches!(link.handle(incoming(1)), LinkAction::Ignore));
        }
    }
}

#[test]
fn only_the_message_after_a_packet_is_ignored() {
    let mut link = Link::of_service();
    for byte in 0..3u8 {
        match link.handle(incoming(byte)) {
            LinkAction::Route(message) => assert_eq!(bytes_of(message), vec![byte; 40]),
            other => panic!("{:?}", other),
        }
    }
    link.handle(LinkEvent::Outgoing(packet(Payload::Ack { idx: 1 })));
    assert!(matches!(link.handle(LinkEvent::Incoming(Message::Close)), LinkAction::Ignore));
    assert!(matches!(
        link.handle(LinkEvent::Incoming(Message::Close)),
        LinkAction::Route(Message::Close)
    ));
}

#[test]
fn proxies_name_themselves_when_they_open_a_connection() {
    let opening = || packet(Payload::Establish { sender: identity(0, 0) });
    let sent = bytes_sent(Link::of_proxy(identity(7, 8)).handle(LinkEvent::Outgoing(opening())));
    assert_eq!(sent, bytes_of(packet_to_message(&opening().sign(identity(7, 8)))));
    assert_eq!(sent[100..132], [7; 32]);
    assert_eq!(sent[132..], [8; 32]);
    let sent = bytes_sent(Link::of_service().handle(LinkEvent::Outgoing(opening())));
    assert_eq!(sent, bytes_of(packet_to_message(&opening())));
    assert_eq!(sent[100..], [0; 64]);
}
