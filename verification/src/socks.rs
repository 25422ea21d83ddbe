//! The server's side of the SOCKS 5 handshake, over the bytes that the client has sent so far.

use vstd::prelude::*;
use vstd::slice::{slice_subrange, slice_to_vec};
use vstd::utf8::{
    decode_utf8, decode_utf8_encode_utf8, encode_utf8, encode_utf8_decode_utf8,
    encode_utf8_valid_utf8, valid_utf8,
};

use crate::error::SocksError;

verus! {

/// How far a message of the client has come.
#[derive(Debug)]
pub enum Progress<T> {
    /// This many more bytes have to be read before anything can be decided.
    NeedMore(usize),
    /// The message is complete and means this.
    Done(T),
}

/// What the bytes of a message amount to.
pub enum Verdict<T> {
    NeedMore(nat),
    Done(T),
    Refused(Seq<char>),
}

/// A request to connect to a host.
#[derive(Debug)]
pub struct SocksRequest {
    pub fqdn: String,
    pub port: u16,
}

/// The mathematical content of a [`SocksRequest`].
#[verifier::ext_equal]
pub struct RequestView {
    pub fqdn: Seq<char>,
    pub port: u16,
}

impl View for SocksRequest {
    type V = RequestView;

    open spec fn view(&self) -> RequestView {
        RequestView { fqdn: self.fqdn@, port: self.port }
    }
}

/// Whether `result` says what `verdict` says; a refusal is a protocol error with its reason.
pub open spec fn agrees<T: View>(
    result: Result<Progress<T>, SocksError>,
    verdict: Verdict<T::V>,
) -> bool {
    match (result, verdict) {
        (Ok(Progress::NeedMore(more)), Verdict::NeedMore(needed)) => more == needed,
        (Ok(Progress::Done(value)), Verdict::Done(meaning)) => value@ == meaning,
        (Err(SocksError::ProtocolError(message)), Verdict::Refused(reason)) => message@ == reason,
        _ => false,
    }
}

/// What the client's offer of authentication methods amounts to: a version, the number of
/// methods, and the methods, which have to hold the one without authentication. The answer to an
/// acceptable offer picks that method.
pub open spec fn offer_verdict(received: Seq<u8>) -> Verdict<Seq<u8>> {
    if received.len() == 0 {
        Verdict::NeedMore(1)
    } else if received[0] != 5 {
        Verdict::Refused("Wrong version"@)
    } else if received.len() == 1 {
        Verdict::NeedMore(1)
    } else if received.len() < 2 + received[1] {
        Verdict::NeedMore((2 + received[1] - received.len()) as nat)
    } else if received.subrange(2, 2 + received[1]).contains(0u8) {
        Verdict::Done(seq![5u8, 0u8])
    } else {
        Verdict::Refused("NO AUTHENTICATION REQUIRED not supported"@)
    }
}

/// What the client's request amounts to: a version, the command to connect, a reserved zero, the
/// address type of a domain name, the name with its length in front, and the port.
pub open spec fn request_verdict(received: Seq<u8>) -> Verdict<RequestView> {
    let len = received.len();
    if len == 0 {
        Verdict::NeedMore(1)
    } else if received[0] != 5 {
        Verdict::Refused("Wrong version"@)
    } else if len == 1 {
        Verdict::NeedMore(1)
    } else if received[1] != 1 {
        Verdict::Refused("Only connect requests are supported"@)
    } else if len == 2 {
        Verdict::NeedMore(1)
    } else if received[2] != 0 {
        Verdict::Refused("RSV!=0"@)
    } else if len == 3 {
        Verdict::NeedMore(1)
    } else if received[3] != 3 {
        Verdict::Refused("Only fqdns are supported"@)
    } else if len == 4 {
        Verdict::NeedMore(1)
    } else {
        let end = 5 + received[4];
        let name = received.subrange(5, end);
        if len < end {
            Verdict::NeedMore((end - len) as nat)
        } else if !valid_utf8(name) {
            Verdict::Refused("Invalid unicode as fqdn"@)
        } else if len < end + 2 {
            Verdict::NeedMore((end + 2 - len) as nat)
        } else {
            Verdict::Done(
                RequestView {
                    fqdn: decode_utf8(name),
                    port: (256 * received[end] + received[end + 1]) as u16,
                },
            )
        }
    }
}

/// The number of bytes of the complete request that starts `received`.
pub open spec fn request_len(received: Seq<u8>) -> int {
    7 + received[4]
}

/// The bytes in which a client makes a request to connect to a host and a port.
pub open spec fn request_bytes(request: RequestView) -> Seq<u8> {
    let name = encode_utf8(request.fqdn);
    seq![5u8, 1u8, 0u8, 3u8, name.len() as u8] + name + seq![
        (request.port / 256) as u8,
        (request.port % 256) as u8,
    ]
}

/// The answer to a request that repeats the host and the port of the request.
pub open spec fn echo_reply_bytes(request: RequestView) -> Seq<u8> {
    let name = encode_utf8(request.fqdn);
    seq![5u8, 0u8, 0u8, 3u8, (name.len() % 256) as u8] + name + seq![
        (request.port / 256) as u8,
        (request.port % 256) as u8,
    ]
}

/// Reads the client's offer of authentication methods and gives the answer to it.
pub fn authenticate(received: &[u8]) -> (result: Result<Progress<Vec<u8>>, SocksError>)
    ensures
        agrees(result, offer_verdict(received@)),
{
    if received.len() == 0 {
        return Ok(Progress::NeedMore(1));
    }
    if received[0] != 5 {
        return Err(SocksError::ProtocolError("Wrong version"));
    }
    if received.len() == 1 {
        return Ok(Progress::NeedMore(1));
    }
    let end = 2 + received[1] as usize;
    if received.len() < end {
        return Ok(Progress::NeedMore(end - received.len()));
    }
    let ghost methods = received@.subrange(2, end as int);
    let mut i: usize = 2;
    while i < end
        invariant
            2 <= i <= end <= received@.len(),
            methods == received@.subrange(2, end as int),
            forall|j: int| 0 <= j < i - 2 ==> methods[j] != 0,
            end == 2 + received@[1],
            received@[0] == 5,
        decreases end - i,
    {
        if received[i] == 0 {
            assert(methods[i - 2] == 0);
            // Version 5, no authentication.
            let reply: Vec<u8> = vec![5, 0];
            assert(reply@ =~= seq![5u8, 0u8]);
            return Ok(Progress::Done(reply));
        }
        i = i + 1;
    }
    Err(SocksError::ProtocolError("NO AUTHENTICATION REQUIRED not supported"))
}

/// Reads the client's request.
pub fn receive_request(received: &[u8]) -> (result: Result<Progress<SocksRequest>, SocksError>)
    ensures
        agrees(result, request_verdict(received@)),
{
    let len = received.len();
    if len == 0 {
        return Ok(Progress::NeedMore(1));
    }
    if received[0] != 5 {
        return Err(SocksError::ProtocolError("Wrong version"));
    }
    if len == 1 {
        return Ok(Progress::NeedMore(1));
    }
    if received[1] != 1 {
        return Err(SocksError::ProtocolError("Only connect requests are supported"));
    }
    if len == 2 {
        return Ok(Progress::NeedMore(1));
    }
    if received[2] != 0 {
        return Err(SocksError::ProtocolError("RSV!=0"));
    }
    if len == 3 {
        return Ok(Progress::NeedMore(1));
    }
    if received[3] != 3 {
        return Err(SocksError::ProtocolError("Only fqdns are supported"));
    }
    if len == 4 {
        return Ok(Progress::NeedMore(1));
    }
    let end = 5 + received[4] as usize;
    if len < end {
        return Ok(Progress::NeedMore(end - len));
    }
    let name = slice_to_vec(slice_subrange(received, 5, end));
    let fqdn = match String::from_utf8(name) {
        Ok(fqdn) => fqdn,
        Err(_) => return Err(SocksError::ProtocolError("Invalid unicode as fqdn")),
    };
    if len < end + 2 {
        return Ok(Progress::NeedMore(end + 2 - len));
    }
    let port = 256 * received[end] as u16 + received[end + 1] as u16;
    Ok(Progress::Done(SocksRequest { fqdn, port }))
}

/// The answer to every request: success, bound to the address 10.0.0.1, without a port.
pub fn connect_reply() -> (reply: Vec<u8>)
    ensures
        reply@ == seq![5u8, 0u8, 0u8, 1u8, 10u8, 0u8, 0u8, 1u8],
{
    let reply: Vec<u8> = vec![5, 0, 0, 1, 10, 0, 0, 1];
    assert(reply@ =~= seq![5u8, 0u8, 0u8, 1u8, 10u8, 0u8, 0u8, 1u8]);
    reply
}

/// The answer that repeats the host and the port of `request`.
pub fn echo_reply(request: &SocksRequest) -> (reply: Vec<u8>)
    ensures
        reply@ == echo_reply_bytes(request@),
{
    let name = request.fqdn.as_str().as_bytes();
    let len = name.len();
    let port = request.port;
    proof {
        assert(len as u8 == (len % 256) as u8) by (bit_vector);
    }
    let mut reply: Vec<u8> = vec![5, 0, 0, 3, len as u8];
    reply.extend_from_slice(name);
    reply.push((port / 256) as u8);
    reply.push((port % 256) as u8);
    assert(reply@ =~= echo_reply_bytes(request@));
    reply
}

/// An offer that is decided stays decided, whatever the client sends after it.
pub proof fn decided_offers_stay(received: Seq<u8>, rest: Seq<u8>)
    requires
        offer_verdict(received) !is NeedMore,
    ensures
        offer_verdict(received + rest) == offer_verdict(received),
{
    if received[0] == 5 {
        assert((received + rest).subrange(2, 2 + received[1]) =~= received.subrange(
            2,
            2 + received[1],
        ));
    }
}

/// No byte behind an offer is ever asked for: with fewer bytes than were asked for, nothing is
/// decided and only the missing ones are asked for.
pub proof fn offers_ask_for_no_more_than_they_need(received: Seq<u8>, more: Seq<u8>)
    requires
        offer_verdict(received) matches Verdict::NeedMore(needed) && more.len() < needed,
    ensures
        offer_verdict(received) matches Verdict::NeedMore(needed) && offer_verdict(received + more)
            == Verdict::<Seq<u8>>::NeedMore((needed - more.len()) as nat),
{
    if more.len() == 0 {
        assert(received + more =~= received);
    }
}

/// A complete offer in the right version is accepted if and only if it lists the method without
/// authentication.
pub proof fn offers_need_the_open_method(methods: Seq<u8>)
    requires
        methods.len() <= 255,
    ensures
        offer_verdict(seq![5u8, methods.len() as u8] + methods) == if methods.contains(0u8) {
            Verdict::Done(seq![5u8, 0u8])
        } else {
            Verdict::Refused("NO AUTHENTICATION REQUIRED not supported"@)
        },
{
    let offer = seq![5u8, methods.len() as u8] + methods;
    assert(offer.subrange(2, 2 + offer[1]) =~= methods);
}

/// A request that is decided stays decided, whatever the client sends after it.
pub proof fn decided_requests_stay(received: Seq<u8>, rest: Seq<u8>)
    requires
        request_verdict(received) !is NeedMore,
    ensures
        request_verdict(received + rest) == request_verdict(received),
{
    if received.len() > 4 && received.len() >= 5 + received[4] {
        assert((received + rest).subrange(5, 5 + received[4]) =~= received.subrange(
            5,
            5 + received[4],
        ));
    }
}

/// A request to connect to a host whose name has at most 255 bytes is understood as it is meant,
/// whatever the client sends after it.
pub proof fn requests_are_understood(request: RequestView, rest: Seq<u8>)
    requires
        encode_utf8(request.fqdn).len() <= 255,
    ensures
        request_verdict(request_bytes(request) + rest) == Verdict::Done(request),
        request_len(request_bytes(request) + rest) == request_bytes(request).len(),
{
    let name = encode_utf8(request.fqdn);
    let received = request_bytes(request) + rest;
    encode_utf8_valid_utf8(request.fqdn);
    encode_utf8_decode_utf8(request.fqdn);
    assert(received.subrange(5, 5 + received[4]) =~= name);
    assert(received[5 + name.len() as int] == (request.port / 256) as u8);
    assert(received[6 + name.len() as int] == (request.port % 256) as u8);
}

/// Nothing else is understood as a request: the bytes of a complete request are those in which a
/// client makes it.
pub proof fn only_requests_are_understood(received: Seq<u8>)
    requires
        request_verdict(received) is Done,
    ensures
        received.len() >= request_len(received),
        received.take(request_len(received)) == request_bytes(request_verdict(received)->Done_0),
{
    let end = 5 + received[4];
    let name = received.subrange(5, end);
    decode_utf8_encode_utf8(name);
    assert(received.take(request_len(received)) =~= request_bytes(
        request_verdict(received)->Done_0,
    ));
}

/// No byte behind a request is ever asked for: with fewer bytes than were asked for, nothing is
/// decided and only the missing ones are asked for.
pub proof fn requests_ask_for_no_more_than_they_need(received: Seq<u8>, more: Seq<u8>)
    requires
        request_verdict(received) matches Verdict::NeedMore(needed) && more.len() < needed,
    ensures
        request_verdict(received) matches Verdict::NeedMore(needed) && request_verdict(
            received + more,
        ) == Verdict::<RequestView>::NeedMore((needed - more.len()) as nat),
{
    if more.len() == 0 {
        assert(received + more =~= received);
    } else if received.len() > 4 && received.len() >= 5 + received[4] {
        assert((received + more).subrange(5, 5 + received[4]) =~= received.subrange(
            5,
            5 + received[4],
        ));
    }
}

/// The answer that repeats a request repeats it byte for byte, from the address type on.
pub proof fn echoes_repeat_the_request(received: Seq<u8>)
    requires
        request_verdict(received) is Done,
    ensures
        echo_reply_bytes(request_verdict(received)->Done_0) == seq![5u8, 0u8, 0u8]
            + received.subrange(3, request_len(received)),
{
    let end = 5 + received[4];
    let name = received.subrange(5, end);
    decode_utf8_encode_utf8(name);
    assert(echo_reply_bytes(request_verdict(received)->Done_0) =~= seq![5u8, 0u8, 0u8]
        + received.subrange(3, request_len(received)));
}

/// A result that agrees with a verdict asks for that many bytes, has that very meaning, or is a
/// protocol error with that very reason, and says nothing else.
pub proof fn agreement_is_exact<T: View>(
    result: Result<Progress<T>, SocksError>,
    verdict: Verdict<T::V>,
)
    requires
        agrees(result, verdict),
    ensures
        result matches Ok(Progress::NeedMore(more)) ==> verdict == Verdict::<T::V>::NeedMore(
            more as nat,
        ),
        result matches Ok(Progress::Done(value)) ==> verdict == Verdict::<T::V>::Done(value@),
        result matches Err(error) ==> (error matches SocksError::ProtocolError(message)
            && verdict == Verdict::<T::V>::Refused(message@)),
{
}

/// An offer is read in these portions: its version alone, its number of methods alone, and then
/// the methods that are missing. Any other version is refused at once.
pub proof fn offers_are_read_in_portions(version: u8, count: u8, methods: Seq<u8>, rest: Seq<u8>)
    requires
        methods.len() < count,
    ensures
        offer_verdict(Seq::empty()) == Verdict::<Seq<u8>>::NeedMore(1),
        offer_verdict(seq![5u8]) == Verdict::<Seq<u8>>::NeedMore(1),
        offer_verdict(seq![5u8, count] + methods) == Verdict::<Seq<u8>>::NeedMore(
            (count - methods.len()) as nat,
        ),
        version != 5 ==> offer_verdict(seq![version] + rest) == Verdict::<Seq<u8>>::Refused(
            "Wrong version"@,
        ),
{
}

/// The parts of a request in front of its name are read one by one, and each that is not as it
/// has to be is refused as soon as it has come in: a version other than five, a command other than
/// to connect, a reserved byte other than zero, and an address that is no name.
pub proof fn requests_are_read_part_by_part(byte: u8, rest: Seq<u8>)
    ensures
        request_verdict(Seq::empty()) == Verdict::<RequestView>::NeedMore(1),
        request_verdict(seq![5u8]) == Verdict::<RequestView>::NeedMore(1),
        request_verdict(seq![5u8, 1]) == Verdict::<RequestView>::NeedMore(1),
        request_verdict(seq![5u8, 1, 0]) == Verdict::<RequestView>::NeedMore(1),
        request_verdict(seq![5u8, 1, 0, 3]) == Verdict::<RequestView>::NeedMore(1),
        byte != 5 ==> request_verdict(seq![byte] + rest) == Verdict::<RequestView>::Refused(
            "Wrong version"@,
        ),
        byte != 1 ==> request_verdict(seq![5u8, byte] + rest) == Verdict::<RequestView>::Refused(
            "Only connect requests are supported"@,
        ),
        byte != 0 ==> request_verdict(seq![5u8, 1, byte] + rest) == Verdict::<
            RequestView,
        >::Refused("RSV!=0"@),
        byte != 3 ==> request_verdict(seq![5u8, 1, 0, byte] + rest) == Verdict::<
            RequestView,
        >::Refused("Only fqdns are supported"@),
{
}

/// The name of a request is asked for in one, and then its port. A name that is no UTF-8 is
/// refused before the port is asked for.
pub proof fn names_are_read_before_ports(count: u8, part: Seq<u8>, name: Seq<u8>, rest: Seq<u8>)
    requires
        part.len() < count,
        name.len() <= 255,
    ensures
        request_verdict(seq![5u8, 1, 0, 3, count] + part) == Verdict::<RequestView>::NeedMore(
            (count - part.len()) as nat,
        ),
        !valid_utf8(name) ==> request_verdict(
            seq![5u8, 1, 0, 3, name.len() as u8] + name + rest,
        ) == Verdict::<RequestView>::Refused("Invalid unicode as fqdn"@),
        valid_utf8(name) && rest.len() < 2 ==> request_verdict(
            seq![5u8, 1, 0, 3, name.len() as u8] + name + rest,
        ) == Verdict::<RequestView>::NeedMore((2 - rest.len()) as nat),
{
    let received = seq![5u8, 1, 0, 3, name.len() as u8] + name + rest;
    assert(received.subrange(5, 5 + received[4]) =~= name);
}

/// A request to connect to any host of at most 255 bytes and any port is understood as that host
/// and that port, whatever follows.
pub proof fn hosts_and_ports_are_understood(fqdn: Seq<char>, port: u16, rest: Seq<u8>)
    requires
        encode_utf8(fqdn).len() <= 255,
    ensures
        request_verdict(
            seq![5u8, 1, 0, 3, encode_utf8(fqdn).len() as u8] + encode_utf8(fqdn) + seq![
                (port / 256) as u8,
                (port % 256) as u8,
            ] + rest,
        ) == Verdict::Done(RequestView { fqdn, port }),
{
    requests_are_understood(RequestView { fqdn, port }, rest);
}

/// The answer that repeats a request is success, the name with the low byte of its length in
/// front, and the port.
pub proof fn echoes_hold_host_and_port(request: RequestView)
    ensures
        echo_reply_bytes(request) == seq![5u8, 0, 0, 3] + seq![
            (encode_utf8(request.fqdn).len() % 256) as u8,
        ] + encode_utf8(request.fqdn) + seq![
            (request.port / 256) as u8,
            (request.port % 256) as u8,
        ],
{
    let name = encode_utf8(request.fqdn);
    assert(echo_reply_bytes(request) =~= seq![5u8, 0, 0, 3] + seq![(name.len() % 256) as u8] + name
        + seq![(request.port / 256) as u8, (request.port % 256) as u8]);
}

} // verus!
