use nym_hs::transport::{Transport, TransportAction, TransportEvent, TransportStep};
use nym_hs::{reliable_transport, Identity, Packet, Payload, CHUNK_LEN, TIMEOUT};

const STREAM: [u8; 32] = [9; 32];

fn peer() -> Identity {
    Identity { client: [1; 32], gateway: [2; 32] }
}

fn data(idx: usize, bytes: &[u8]) -> TransportEvent {
    TransportEvent::Received(Payload::Data { idx, data: bytes.to_vec() })
}

fn ack(idx: usize) -> TransportEvent {
    TransportEvent::Received(Payload::Ack { idx })
}

/// What was sent: the number and the bytes of a chunk.
fn sent_data(action: &TransportAction) -> (usize, Vec<u8>) {
    let packet = action.send.as_ref().unwrap();
    assert_eq!(packet.recipient.client, [1; 32]);
    assert_eq!(packet.recipient.gateway, [2; 32]);
    assert_eq!(packet.stream, STREAM);
    match &packet.payload {
        Payload::Data { idx, data } => (*idx, data.clone()),
        other => panic!("{:?}", other),
    }
}

fn sent_ack(action: &TransportAction) -> usize {
    let packet = action.send.as_ref().unwrap();
    assert_eq!(packet.recipient.client, [1; 32]);
    assert_eq!(packet.stream, STREAM);
    match packet.payload {
        Payload::Ack { idx } => idx,
        ref other => panic!("{:?}", other),
    }
}

#[test]
fn resend_interval_is_two_seconds() {
    assert_eq!(TIMEOUT, 2000);
}

#[test]
fn chunks_are_numbered_from_one_and_repeated() {
    let mut endpoint = Transport::new(peer(), STREAM, None);
    assert!(endpoint.can_read());
    let action = reliable_transport(&mut endpoint, TransportEvent::Read(b"one".to_vec()));
    assert!(action.write.is_none());
    assert_eq!(sent_data(&action), (1, b"one".to_vec()));
    assert!(!endpoint.can_read());
    assert!(!endpoint.can_handle(&TransportEvent::Read(Vec::new())));

    for _ in 0..3 {
        let action = reliable_transport(&mut endpoint, TransportEvent::Tick);
        assert!(action.write.is_none());
        assert_eq!(sent_data(&action), (1, b"one".to_vec()));
    }

    let action = reliable_transport(&mut endpoint, ack(1));
    assert!(action.write.is_none() && action.send.is_none());
    assert!(endpoint.can_read());
    let action = reliable_transport(&mut endpoint, TransportEvent::Tick);
    assert!(action.write.is_none() && action.send.is_none());

    // An empty read is a chunk too.
    let action = reliable_transport(&mut endpoint, TransportEvent::Read(Vec::new()));
    assert_eq!(sent_data(&action), (2, Vec::new()));
}

#[test]
fn late_confirmations_change_nothing() {
    let mut endpoint = Transport::new(peer(), STREAM, None);
    reliable_transport(&mut endpoint, TransportEvent::Read(b"one".to_vec()));
    reliable_transport(&mut endpoint, ack(1));
    reliable_transport(&mut endpoint, TransportEvent::Read(b"two".to_vec()));
    for idx in [0, 1, 3] {
        let action = reliable_transport(&mut endpoint, ack(idx));
        assert!(action.write.is_none() && action.send.is_none());
        assert!(!endpoint.can_read());
    }
    reliable_transport(&mut endpoint, ack(2));
    assert!(endpoint.can_read());
}

#[test]
fn chunks_are_written_once_and_in_order() {
    let mut endpoint = Transport::new(peer(), STREAM, None);
    let action = reliable_transport(&mut endpoint, data(2, b"two"));
    assert!(action.write.is_none() && action.send.is_none());

    let action = reliable_transport(&mut endpoint, data(1, b"one"));
    assert_eq!(action.write, Some(b"one".to_vec()));
    assert_eq!(sent_ack(&action), 1);

    // The confirmation was lost.
    let action = reliable_transport(&mut endpoint, data(1, b"one"));
    assert!(action.write.is_none());
    assert_eq!(sent_ack(&action), 1);

    let action = reliable_transport(&mut endpoint, data(2, b"two"));
    assert_eq!(action.write, Some(b"two".to_vec()));
    assert_eq!(sent_ack(&action), 2);

    let action = reliable_transport(&mut endpoint, data(1, b"one"));
    assert!(action.write.is_none() && action.send.is_none());
}

#[test]
fn first_packet_is_repeated_until_chunk_zero_is_confirmed() {
    let init_pkg = Packet::establish(peer(), STREAM);
    let mut endpoint = Transport::new(peer(), STREAM, Some(init_pkg));
    assert!(!endpoint.can_read());
    let action = reliable_transport(&mut endpoint, TransportEvent::Tick);
    assert!(matches!(action.send.unwrap().payload, Payload::Establish { .. }));
    reliable_transport(&mut endpoint, ack(1));
    assert!(!endpoint.can_read());
    reliable_transport(&mut endpoint, ack(0));
    assert!(endpoint.can_read());
}

#[test]
fn opening_is_confirmed_as_chunk_zero() {
    let mut endpoint = Transport::new(peer(), STREAM, None);
    let opening = Payload::Establish { sender: Identity::default() };
    let action = reliable_transport(&mut endpoint, TransportEvent::Received(opening));
    assert!(action.write.is_none());
    assert_eq!(sent_ack(&action), 0);
}

/// Two endpoints over a network that loses, repeats and reorders.
#[test]
fn streams_arrive_in_order_over_a_bad_network() {
    let init_pkg = Packet::establish(peer(), STREAM);
    let mut ends = [
        Transport::new(peer(), STREAM, Some(init_pkg)),
        Transport::new(peer(), STREAM, None),
    ];
    let mut sent: [Vec<Payload>; 2] = [Vec::new(), Vec::new()];
    let mut read: [Vec<u8>; 2] = [Vec::new(), Vec::new()];
    let mut written: [Vec<u8>; 2] = [Vec::new(), Vec::new()];
    let mut state: u64 = 42;
    let mut random = |bound: usize| {
        state = state.wrapping_mul(6364136223846793005).wrapping_add(1442695040888963407);
        (state >> 33) as usize % bound
    };
    for step in 0..20_000u32 {
        let end = random(2);
        let event = match random(3) {
            0 if ends[end].can_read() => {
                let bytes = step.to_be_bytes()[..random(5)].to_vec();
                read[end].extend_from_slice(&bytes);
                TransportEvent::Read(bytes)
            }
            1 if !sent[1 - end].is_empty() => {
                // Anything sent so far may arrive; what is recent does so more often.
                let len = sent[1 - end].len();
                let from = if random(2) == 0 { 0 } else { len.saturating_sub(3) };
                TransportEvent::Received(sent[1 - end][from + random(len - from)].clone())
            }
            _ => TransportEvent::Tick,
        };
        assert!(ends[end].can_handle(&event));
        let action = reliable_transport(&mut ends[end], event);
        if let Some(bytes) = action.write {
            written[end].extend_from_slice(&bytes);
        }
        if let Some(packet) = action.send {
            sent[end].push(packet.payload);
        }
        for end in 0..2 {
            assert!(read[1 - end].starts_with(&written[end]));
            if ends[1 - end].can_read() {
                assert_eq!(read[1 - end], written[end]);
            }
        }
    }
    assert!(written[0].len() > 100 && written[1].len() > 100);
}

#[test]
fn resending_makes_up_for_lost_packets() {
    let mut left = Transport::new(peer(), STREAM, None);
    let mut right = Transport::new(peer(), STREAM, None);
    // The chunk is lost, then its confirmation.
    reliable_transport(&mut left, TransportEvent::Read(b"one".to_vec()));
    let resent = reliable_transport(&mut left, TransportEvent::Tick).send.unwrap();
    let action = reliable_transport(&mut right, TransportEvent::Received(resent.payload));
    assert_eq!(action.write, Some(b"one".to_vec()));

    let resent = reliable_transport(&mut left, TransportEvent::Tick).send.unwrap();
    let action = reliable_transport(&mut right, TransportEvent::Received(resent.payload));
    assert!(action.write.is_none());
    let answer = action.send.unwrap();
    reliable_transport(&mut left, TransportEvent::Received(answer.payload));
    assert!(left.can_read());
}

#[test]
fn chunks_hold_at_most_one_buffer() {
    assert_eq!(CHUNK_LEN, 500);
    let mut buffer = [7u8; CHUNK_LEN];
    buffer[2] = 9;
    for (read, expected) in
        [(0, Vec::new()), (3, vec![7, 7, 9]), (CHUNK_LEN, buffer.to_vec())]
    {
        match TransportEvent::of_read(&buffer, read) {
            TransportEvent::Read(bytes) => assert_eq!(bytes, expected),
            other => panic!("{:?}", other),
        }
    }
}

#[test]
fn chunks_are_written_before_they_are_confirmed() {
    let mut endpoint = Transport::new(peer(), STREAM, None);
    let steps = reliable_transport(&mut endpoint, data(1, b"one")).steps();
    assert_eq!(steps.len(), 2);
    assert!(matches!(&steps[0], TransportStep::Write(bytes) if bytes == b"one"));
    assert!(matches!(
        &steps[1],
        TransportStep::Send(Packet { payload: Payload::Ack { idx: 1 }, .. })
    ));
    let again = reliable_transport(&mut endpoint, data(1, b"one")).steps();
    assert_eq!(again.len(), 1);
    assert!(matches!(
        &again[0],
        TransportStep::Send(Packet { payload: Payload::Ack { idx: 1 }, .. })
    ));
    assert!(reliable_transport(&mut endpoint, data(3, b"three")).steps().is_empty());
    assert!(reliable_transport(&mut endpoint, TransportEvent::Tick).steps().is_empty());
}

/// One endpoint, told anything at any time.
#[test]
fn endpoints_keep_their_word_whatever_comes_in() {
    let init_pkg = Packet::establish(peer(), STREAM);
    let mut endpoint = Transport::new(peer(), STREAM, Some(init_pkg));
    let mut read: Vec<Vec<u8>> = Vec::new();
    let mut first_copies: Vec<(usize, Vec<u8>)> = Vec::new();
    let mut written: Vec<Vec<u8>> = Vec::new();
    let mut expected: Vec<Vec<u8>> = Vec::new();
    let mut confirmed = false;
    let mut state: u64 = 7;
    let mut random = |bound: usize| {
        state = state.wrapping_mul(6364136223846793005).wrapping_add(1442695040888963407);
        (state >> 33) as usize % bound
    };
    for step in 0..20_000u32 {
        let event = match random(4) {
            0 if endpoint.can_read() => {
                assert!(confirmed);
                confirmed = false;
                let bytes = step.to_be_bytes()[..random(5)].to_vec();
                read.push(bytes.clone());
                TransportEvent::Read(bytes)
            }
            1 => {
                let idx = (expected.len() + random(4)).saturating_sub(1);
                let chunk = vec![random(256) as u8; random(3)];
                if idx == expected.len() + 1 {
                    expected.push(chunk.clone());
                }
                TransportEvent::Received(Payload::Data { idx, data: chunk })
            }
            2 => {
                let idx = (read.len() + random(3)).saturating_sub(1);
                confirmed = confirmed || idx == read.len();
                TransportEvent::Received(Payload::Ack { idx })
            }
            _ => TransportEvent::Tick,
        };
        for step in reliable_transport(&mut endpoint, event).steps() {
            match step {
                TransportStep::Write(bytes) => written.push(bytes),
                TransportStep::Send(packet) => {
                    assert_eq!(packet.recipient.client, peer().client);
                    assert_eq!(packet.stream, STREAM);
                    match packet.payload {
                        Payload::Data { idx, data } => {
                            if first_copies.iter().all(|copy| copy.0 != idx) {
                                first_copies.push((idx, data.clone()));
                            }
                            assert_eq!(read[idx - 1], data);
                        }
                        Payload::Ack { idx } => assert_eq!(idx, written.len()),
                        Payload::Establish { .. } => assert!(read.is_empty() && !confirmed),
                    }
                }
            }
        }
        assert_eq!(written, expected);
    }
    assert!(written.len() > 100 && read.len() > 100);
    assert_eq!(first_copies.len(), read.len());
    for (k, (idx, data)) in first_copies.iter().enumerate() {
        assert_eq!(*idx, k + 1);
        assert_eq!(*data, read[k]);
    }
}
