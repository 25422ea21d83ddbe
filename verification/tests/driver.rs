use nym_hs::driver::{Driver, DriverEvent};
use nym_hs::transport::{TransportEvent, TransportStep};
use nym_hs::{Identity, Packet, Payload, SocksError};
use tokio::sync::mpsc::error::SendError;

const STREAM: [u8; 32] = [9; 32];

fn peer() -> Identity {
    Identity { client: [1; 32], gateway: [2; 32] }
}

fn data(idx: usize) -> DriverEvent {
    DriverEvent::Happened(TransportEvent::Received(Payload::Data { idx, data: vec![7; 3] }))
}

fn failure() -> std::io::Error {
    std::io::Error::from(std::io::ErrorKind::ConnectionReset)
}

fn is_failure(result: Result<Option<TransportStep>, SocksError>) -> bool {
    matches!(
        result,
        Err(SocksError::IoError(error)) if error.kind() == std::io::ErrorKind::ConnectionReset
    )
}

fn unsent() -> DriverEvent {
    DriverEvent::Sent(Err(SendError(Packet::establish(peer(), STREAM))))
}

fn has_ended(driver: &Driver) -> bool {
    [
        DriverEvent::Happened(TransportEvent::Tick),
        DriverEvent::ReadFailed(failure()),
        DriverEvent::Written(Ok(())),
        DriverEvent::Written(Err(failure())),
        DriverEvent::Sent(Ok(())),
        unsent(),
    ]
    .iter()
    .all(|event| !driver.can_handle(event))
}

#[test]
fn steps_are_handed_out_one_at_a_time() {
    let mut driver = Driver::of_service(peer(), STREAM);
    assert!(driver.can_read());
    assert!(!driver.can_handle(&DriverEvent::Written(Ok(()))));
    let step = driver.advance(data(1)).unwrap();
    assert!(matches!(step, Some(TransportStep::Write(bytes)) if bytes == vec![7; 3]));

    assert!(!driver.can_handle(&data(2)));
    assert!(!driver.can_handle(&DriverEvent::Sent(Ok(()))));
    let step = driver.advance(DriverEvent::Written(Ok(()))).unwrap();
    assert!(matches!(
        step,
        Some(TransportStep::Send(Packet { payload: Payload::Ack { idx: 1 }, .. }))
    ));

    assert!(!driver.can_handle(&DriverEvent::Written(Ok(()))));
    assert!(driver.advance(DriverEvent::Sent(Ok(()))).unwrap().is_none());
    assert!(driver.can_handle(&data(2)));
    assert!(driver.advance(data(5)).unwrap().is_none());
}

#[test]
fn failed_writes_are_not_confirmed() {
    let mut driver = Driver::of_service(peer(), STREAM);
    driver.advance(data(1)).unwrap();
    assert!(is_failure(driver.advance(DriverEvent::Written(Err(failure())))));
    assert!(has_ended(&driver));
}

#[test]
fn failed_reads_end_endpoints() {
    let mut driver = Driver::of_service(peer(), STREAM);
    assert!(driver.can_handle(&DriverEvent::ReadFailed(failure())));
    assert!(is_failure(driver.advance(DriverEvent::ReadFailed(failure()))));
    assert!(has_ended(&driver));
}

#[test]
fn closed_channels_end_endpoints() {
    let mut driver = Driver::of_service(peer(), STREAM);
    let read = DriverEvent::Happened(TransportEvent::Read(vec![1]));
    assert!(matches!(driver.advance(read), Ok(Some(TransportStep::Send(_)))));
    assert!(driver.can_handle(&unsent()));
    assert!(matches!(driver.advance(unsent()), Err(SocksError::ConnectionDropped)));
    assert!(has_ended(&driver));
}

#[test]
fn proxies_open_the_connection_first() {
    let mut driver = Driver::of_proxy(peer(), STREAM);
    assert!(!driver.can_read());
    assert!(!driver.can_handle(&DriverEvent::ReadFailed(failure())));
    for _ in 0..2 {
        match driver.advance(DriverEvent::Happened(TransportEvent::Tick)).unwrap() {
            Some(TransportStep::Send(Packet {
                recipient,
                stream: STREAM,
                payload: Payload::Establish { .. },
            })) => assert_eq!(recipient.gateway, [2; 32]),
            other => panic!("{:?}", other),
        }
        driver.advance(DriverEvent::Sent(Ok(()))).unwrap();
    }
    let ack = DriverEvent::Happened(TransportEvent::Received(Payload::Ack { idx: 0 }));
    assert!(driver.advance(ack).unwrap().is_none());
    assert!(driver.can_read());
}

#[test]
fn unexpected_payloads_are_told_apart() {
    let mut driver = Driver::of_service(peer(), STREAM);
    for (idx, expected) in [(0, true), (1, true), (2, false), (usize::MAX, false)] {
        assert_eq!(driver.expects(&Payload::Data { idx, data: Vec::new() }), expected);
    }
    driver.advance(DriverEvent::Happened(TransportEvent::Read(vec![1]))).unwrap();
    driver.advance(DriverEvent::Sent(Ok(()))).unwrap();
    for (idx, expected) in [(0, false), (1, true), (2, false)] {
        assert_eq!(driver.expects(&Payload::Ack { idx }), expected);
    }
    assert!(driver.expects(&Payload::Establish { sender: peer() }));
}
