use nym_hs::socks::{
    authenticate, connect_reply, echo_reply, receive_request, Progress, SocksRequest,
};
use nym_hs::SocksError;

fn refusal<T>(result: Result<Progress<T>, SocksError>) -> &'static str {
    match result {
        Err(SocksError::ProtocolError(message)) => message,
        _ => panic!("not refused"),
    }
}

fn needed<T>(result: Result<Progress<T>, SocksError>) -> usize {
    match result {
        Ok(Progress::NeedMore(more)) => more,
        _ => panic!("decided"),
    }
}

fn done<T>(result: Result<Progress<T>, SocksError>) -> T {
    match result {
        Ok(Progress::Done(value)) => value,
        _ => panic!("not done"),
    }
}

/// Feeds `wire` to `parse` as it asks for bytes, and counts the bytes taken.
fn feed<T>(
    wire: &[u8],
    parse: fn(&[u8]) -> Result<Progress<T>, SocksError>,
) -> (usize, Result<T, SocksError>) {
    let mut taken = 0;
    loop {
        match parse(&wire[..taken]) {
            Ok(Progress::NeedMore(more)) => {
                assert!(more > 0);
                taken += more;
            }
            Ok(Progress::Done(value)) => return (taken, Ok(value)),
            Err(error) => return (taken, Err(error)),
        }
    }
}

const REQUEST: [u8; 14] = [5, 1, 0, 3, 7, b'a', b'.', b'b', b'.', b'n', b'y', b'm', 0x1f, 0x90];

#[test]
fn offer_is_read_step_by_step() {
    assert_eq!(needed(authenticate(&[])), 1);
    assert_eq!(needed(authenticate(&[5])), 1);
    assert_eq!(needed(authenticate(&[5, 3])), 3);
    assert_eq!(needed(authenticate(&[5, 3, 2])), 2);
    assert_eq!(done(authenticate(&[5, 3, 2, 1, 0])), vec![5, 0]);
    assert_eq!(done(authenticate(&[5, 1, 0])), vec![5, 0]);
}

#[test]
fn offer_in_another_version_is_refused_at_once() {
    assert_eq!(refusal(authenticate(&[4])), "Wrong version");
}

#[test]
fn offer_without_the_open_method_is_refused() {
    let message = "NO AUTHENTICATION REQUIRED not supported";
    assert_eq!(refusal(authenticate(&[5, 2, 1, 2])), message);
    assert_eq!(refusal(authenticate(&[5, 0])), message);
    // The zero behind the list is no method.
    assert_eq!(refusal(authenticate(&[5, 1, 2, 0])), message);
}

#[test]
fn decided_offer_ignores_what_follows() {
    assert_eq!(done(authenticate(&[5, 1, 0, 9, 9])), vec![5, 0]);
    assert_eq!(refusal(authenticate(&[1, 1, 0])), "Wrong version");
}

#[test]
fn request_is_read_step_by_step() {
    let steps = [1, 1, 1, 1, 1, 7, 6, 5, 4, 3, 2, 1, 2, 1];
    for (len, more) in steps.iter().enumerate() {
        assert_eq!(needed(receive_request(&REQUEST[..len])), *more, "after {}", len);
    }
    let request = done(receive_request(&REQUEST));
    assert_eq!(request.fqdn, "a.b.nym");
    assert_eq!(request.port, 8080);
}

#[test]
fn request_with_an_empty_name() {
    assert_eq!(needed(receive_request(&[5, 1, 0, 3, 0])), 2);
    let request = done(receive_request(&[5, 1, 0, 3, 0, 0, 80]));
    assert_eq!(request.fqdn, "");
    assert_eq!(request.port, 80);
}

#[test]
fn broken_requests_are_refused() {
    assert_eq!(refusal(receive_request(&[4])), "Wrong version");
    assert_eq!(refusal(receive_request(&[5, 2])), "Only connect requests are supported");
    assert_eq!(refusal(receive_request(&[5, 1, 1])), "RSV!=0");
    assert_eq!(refusal(receive_request(&[5, 1, 0, 1])), "Only fqdns are supported");
    assert_eq!(
        refusal(receive_request(&[5, 1, 0, 3, 2, 0xff, 0xfe])),
        "Invalid unicode as fqdn"
    );
}

#[test]
fn no_byte_behind_a_message_is_taken() {
    let mut wire = REQUEST.to_vec();
    wire.extend_from_slice(b"GET /");
    let (taken, request) = feed(&wire, receive_request);
    assert_eq!(taken, REQUEST.len());
    assert_eq!(request.unwrap().fqdn, "a.b.nym");
    let (taken, reply) = feed(&[5, 2, 0, 1, 77], authenticate);
    assert_eq!(taken, 4);
    assert_eq!(reply.unwrap(), vec![5, 0]);
    let (taken, request) = feed(&[5, 3, 0, 3], receive_request);
    assert_eq!(taken, 2);
    assert!(matches!(request, Err(SocksError::ProtocolError(_))));
}

#[test]
fn replies_have_these_bytes() {
    assert_eq!(connect_reply(), vec![5, 0, 0, 1, 10, 0, 0, 1]);
    let request = SocksRequest { fqdn: "h\u{e9}".to_string(), port: 0x1234 };
    assert_eq!(echo_reply(&request), vec![5, 0, 0, 3, 3, b'h', 0xc3, 0xa9, 0x12, 0x34]);
}

#[test]
fn echo_repeats_the_request() {
    let request = done(receive_request(&REQUEST));
    let mut expected = vec![5, 0, 0];
    expected.extend_from_slice(&REQUEST[3..]);
    assert_eq!(echo_reply(&request), expected);
}

#[test]
fn echo_of_a_long_name_keeps_the_low_byte_of_its_length() {
    let request = SocksRequest { fqdn: "x".repeat(258), port: 0 };
    let reply = echo_reply(&request);
    assert_eq!(reply[4], 2);
    assert_eq!(reply.len(), 5 + 258 + 2);
}

#[test]
fn errors_are_converted() {
    let io = std::io::Error::new(std::io::ErrorKind::Other, "broken pipe");
    assert!(matches!(SocksError::from(io), SocksError::IoError(_)));
    let dropped = tokio::sync::mpsc::error::SendError(7u8);
    assert!(matches!(SocksError::from(dropped), SocksError::ConnectionDropped));
}

#[test]
fn requests_are_understood_as_they_are_meant() {
    let long = "n".repeat(255);
    for name in ["", "a", "example.nym", "\u{fc}ber.nym", &long] {
        for port in [0u16, 80, 256, 65535] {
            let mut wire = vec![5, 1, 0, 3, name.len() as u8];
            wire.extend_from_slice(name.as_bytes());
            wire.extend_from_slice(&port.to_be_bytes());
            wire.push(9);
            let request = done(receive_request(&wire));
            assert_eq!(request.fqdn, name);
            assert_eq!(request.port, port);
            assert_eq!(feed(&wire, receive_request).0, wire.len() - 1);
        }
    }
}
