use nym_hs::handshake::{Handshake, HandshakeAction, HandshakeEvent, Server};
use nym_hs::{Identity, SocksError};

const CLIENT: &str = "4wBqpZM9xaSheZzJSMawUKKwhdpChKbZ5eu5ky4Vigw";
const GATEWAY: &str = "3ELeRTTg5W5hAYaEFznzFV1jknNFkjHqS8ytwvQEQP1Z";
const CONNECTED: [u8; 8] = [5, 0, 0, 1, 10, 0, 0, 1];

fn request(name: &str, port: u16) -> Vec<u8> {
    let mut wire = vec![5, 1, 0, 3, name.len() as u8];
    wire.extend_from_slice(name.as_bytes());
    wire.extend_from_slice(&port.to_be_bytes());
    wire
}

/// How a handshake over `wire` ends, with what was read and written.
struct Talk {
    taken: usize,
    written: Vec<u8>,
    end: Result<Option<Identity>, SocksError>,
}

/// Plays a client that sends `wire`, `portion` bytes at a time.
fn talk(server: Server, wire: &[u8], portion: usize) -> Talk {
    let mut handshake = Handshake::new(server);
    let mut event = HandshakeEvent::Started;
    let (mut taken, mut written) = (0, Vec::new());
    let end = loop {
        assert!(handshake.can_handle(&event));
        event = match handshake.advance(event) {
            Ok(HandshakeAction::Read(more)) => {
                assert!(more > 0);
                let len = more.min(portion);
                taken += len;
                HandshakeEvent::Received(wire[taken - len..taken].to_vec())
            }
            Ok(HandshakeAction::Answer(bytes)) => {
                written.extend_from_slice(&bytes);
                HandshakeEvent::Written
            }
            Ok(HandshakeAction::Reply { bytes, .. }) => {
                written.extend_from_slice(&bytes);
                HandshakeEvent::Written
            }
            Ok(HandshakeAction::Connect(recipient)) => break Ok(Some(recipient)),
            Ok(HandshakeAction::Close) => break Ok(None),
            Err(error) => break Err(error),
        };
    };
    for event in [
        HandshakeEvent::Started,
        HandshakeEvent::Received(Vec::new()),
        HandshakeEvent::Written,
        HandshakeEvent::Failed(std::io::Error::from(std::io::ErrorKind::Other)),
    ] {
        assert!(!handshake.can_handle(&event));
    }
    Talk { taken, written, end }
}

fn failed() -> HandshakeEvent {
    HandshakeEvent::Failed(std::io::Error::from(std::io::ErrorKind::BrokenPipe))
}

#[test]
fn clients_are_connected_after_both_answers() {
    let mut wire = vec![5, 2, 1, 0];
    wire.extend_from_slice(&request(&format!("{}.{}.nym", CLIENT, GATEWAY), 80));
    let len = wire.len();
    wire.extend_from_slice(b"more");
    for portion in [1, 2, 100] {
        let talk = talk(Server::Proxy, &wire, portion);
        assert_eq!(talk.taken, len);
        assert_eq!(talk.written, [&[5, 0][..], &CONNECTED[..]].concat());
        let recipient = talk.end.unwrap().unwrap();
        assert_eq!(recipient.client[..3], [1, 2, 3]);
        assert_eq!(recipient.gateway[..3], [33, 34, 35]);
    }
}

#[test]
fn other_destinations_are_dropped_after_both_answers() {
    for name in ["example.com", "a.b.onion", ""] {
        let wire = [vec![5, 1, 0], request(name, 80)].concat();
        let talk = talk(Server::Proxy, &wire, 100);
        assert_eq!(talk.taken, wire.len());
        assert_eq!(talk.written, [&[5, 0][..], &CONNECTED[..]].concat());
        assert!(matches!(talk.end, Err(SocksError::UnsupportedDestination)));
    }
}

#[test]
fn refused_offers_are_not_answered() {
    for (offer, taken, reason) in [
        (vec![4], 1, "Wrong version"),
        (vec![5, 2, 1, 2], 4, "NO AUTHENTICATION REQUIRED not supported"),
        (vec![5, 0], 2, "NO AUTHENTICATION REQUIRED not supported"),
    ] {
        for server in [Server::Proxy, Server::Echo] {
            let wire = [offer.clone(), request("a.b.nym", 80)].concat();
            let talk = talk(server, &wire, 100);
            assert_eq!(talk.taken, taken);
            assert!(talk.written.is_empty());
            assert!(matches!(
                talk.end,
                Err(SocksError::ProtocolError(message)) if message == reason
            ));
        }
    }
}

#[test]
fn refused_requests_get_the_first_answer_alone() {
    for (bytes, taken, reason) in [
        (vec![5, 2], 2, "Only connect requests are supported"),
        (vec![5, 1, 0, 3, 1, 0xff, 0, 80], 6, "Invalid unicode as fqdn"),
    ] {
        let wire = [vec![5, 1, 0], bytes].concat();
        let talk = talk(Server::Echo, &wire, 100);
        assert_eq!(talk.taken, 3 + taken);
        assert_eq!(talk.written, vec![5, 0]);
        assert!(matches!(talk.end, Err(SocksError::ProtocolError(message)) if message == reason));
    }
}

#[test]
fn echo_servers_repeat_requests_and_close() {
    let wire = [vec![5, 1, 0], request("example.com", 258)].concat();
    let talk = talk(Server::Echo, &wire, 100);
    assert_eq!(
        talk.written,
        [&[5, 0, 5, 0, 0, 3, 11][..], &b"example.com"[..], &[1, 2][..]].concat()
    );
    assert!(matches!(talk.end, Ok(None)));
}

#[test]
fn broken_sockets_end_handshakes() {
    let mut handshake = Handshake::new(Server::Proxy);
    assert!(!handshake.can_handle(&failed()));
    let ready = vec![
        HandshakeEvent::Started,
        HandshakeEvent::Received(vec![5]),
        HandshakeEvent::Received(vec![1]),
        HandshakeEvent::Received(vec![0]),
        HandshakeEvent::Written,
    ];
    // The socket may fail after each of these.
    for len in 1..=ready.len() {
        handshake = Handshake::new(Server::Proxy);
        for event in ready.iter().take(len) {
            let event = match event {
                HandshakeEvent::Started => HandshakeEvent::Started,
                HandshakeEvent::Received(bytes) => HandshakeEvent::Received(bytes.clone()),
                _ => HandshakeEvent::Written,
            };
            assert!(handshake.can_handle(&event));
            handshake.advance(event).unwrap();
        }
        assert!(handshake.can_handle(&failed()));
        match handshake.advance(failed()) {
            Err(SocksError::IoError(error)) => {
                assert_eq!(error.kind(), std::io::ErrorKind::BrokenPipe)
            }
            other => panic!("{:?}", other),
        }
        assert!(!handshake.can_handle(&failed()));
    }
}

#[test]
fn names_without_keys_are_told_apart() {
    let wire = [vec![5, 1, 0], request("a.b.nym", 80)].concat();
    let mut handshake = Handshake::new(Server::Proxy);
    let mut event = HandshakeEvent::Started;
    let mut taken = 0;
    loop {
        event = match handshake.advance(event).unwrap() {
            HandshakeAction::Read(more) => {
                let more_bytes = HandshakeEvent::Received(vec![0; more + 1]);
                assert!(!handshake.can_handle(&more_bytes));
                taken += more;
                HandshakeEvent::Received(wire[taken - more..taken].to_vec())
            }
            HandshakeAction::Answer(_) => HandshakeEvent::Written,
            HandshakeAction::Reply { request, bytes } => {
                assert_eq!(request.fqdn, "a.b.nym");
                assert_eq!(request.port, 80);
                assert_eq!(bytes, CONNECTED);
                assert!(!handshake.can_handle(&HandshakeEvent::Written));
                return;
            }
            other => panic!("{:?}", other),
        };
    }
}
