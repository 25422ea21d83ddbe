//! The whole handshake with a client of a SOCKS server, from its first byte to its connection.
//!
//! The client offers authentication methods and gets an answer. Only then is its request read,
//! and only once the request is answered is its destination judged. What is wrong with any of
//! these ends the handshake at once, and nothing more is read or written.

use vstd::prelude::*;
use vstd::utf8::encode_utf8;

use crate::address::{
    are_keys, base58_decoded, destination_names, host_names_name_client_and_gateway,
    is_service_name, keys_are_found_in_host_names_and_addresses, keys_have_32_bytes, named_keys,
    other_host_names_name_nobody, parse_destination, try_parse_destination,
};
use crate::error::SocksError;
use crate::identity::Identity;
use crate::socks::{
    authenticate, connect_reply, decided_offers_stay, echo_reply, echo_reply_bytes,
    echoes_hold_host_and_port, echoes_repeat_the_request, hosts_and_ports_are_understood,
    offer_verdict, offers_need_the_open_method, only_requests_are_understood, receive_request,
    request_verdict, Progress, RequestView, SocksRequest, Verdict,
};

verus! {

/// What a SOCKS server does for its clients.
#[derive(Debug, Clone, Copy)]
pub enum Server {
    /// Connects them to hidden services.
    Proxy,
    /// Repeats their requests, and no more.
    Echo,
}

/// The state of a handshake.
#[derive(Debug)]
pub struct Handshake {
    server: Server,
    stage: Stage,
}

#[derive(Debug)]
enum Stage {
    Fresh,
    Offer(Vec<u8>),
    Answering,
    Request(Vec<u8>),
    Replying(SocksRequest),
    Ended,
}

/// The mathematical content of a [`Handshake`].
#[verifier::ext_equal]
pub struct HandshakeView {
    pub server: Server,
    pub stage: StageView,
}

/// How far a handshake has come.
#[verifier::ext_equal]
pub enum StageView {
    /// Nothing has happened.
    Fresh,
    /// These bytes of the client's offer have come in.
    Offer { received: Seq<u8> },
    /// The offer is being answered.
    Answering,
    /// These bytes of the client's request have come in.
    Request { received: Seq<u8> },
    /// This request is being answered.
    Replying { request: RequestView },
    /// The handshake is over.
    Ended,
}

/// What happens during a handshake.
#[derive(Debug)]
pub enum HandshakeEvent {
    /// The client has connected.
    Started,
    /// These bytes were read from the client.
    Received(Vec<u8>),
    /// The bytes for the client were written.
    Written,
    /// Reading or writing failed.
    Failed(std::io::Error),
}

/// The mathematical content of a [`HandshakeEvent`].
#[verifier::ext_equal]
pub enum HandshakeEventView {
    Started,
    Received(Seq<u8>),
    Written,
    Failed(std::io::Error),
}

/// What the server does about an event.
#[derive(Debug)]
pub enum HandshakeAction {
    /// Read this many bytes from the client.
    Read(usize),
    /// Write this answer to the client's offer.
    Answer(Vec<u8>),
    /// Write this answer to the client's request.
    Reply { request: SocksRequest, bytes: Vec<u8> },
    /// Connect the client to this hidden service.
    Connect(Identity),
    /// Do nothing: the client has been served.
    Close,
}

/// What an event leads to: an action, or the end of the connection with an error.
#[verifier::ext_equal]
pub enum OutcomeView {
    Read(nat),
    Answer(Seq<u8>),
    Reply { request: RequestView, bytes: Seq<u8> },
    Connect { recipient: Seq<u8> },
    Close,
    /// The client broke the protocol in this way.
    Refused(Seq<char>),
    /// The client asked for something else than a hidden service.
    Unsupported,
    /// The socket failed.
    Broken(std::io::Error),
}

impl View for Handshake {
    type V = HandshakeView;

    closed spec fn view(&self) -> HandshakeView {
        HandshakeView {
            server: self.server,
            stage: match self.stage {
                Stage::Fresh => StageView::Fresh,
                Stage::Offer(received) => StageView::Offer { received: received@ },
                Stage::Answering => StageView::Answering,
                Stage::Request(received) => StageView::Request { received: received@ },
                Stage::Replying(request) => StageView::Replying { request: request@ },
                Stage::Ended => StageView::Ended,
            },
        }
    }
}

impl View for HandshakeEvent {
    type V = HandshakeEventView;

    open spec fn view(&self) -> HandshakeEventView {
        match *self {
            HandshakeEvent::Started => HandshakeEventView::Started,
            HandshakeEvent::Received(bytes) => HandshakeEventView::Received(bytes@),
            HandshakeEvent::Written => HandshakeEventView::Written,
            HandshakeEvent::Failed(error) => HandshakeEventView::Failed(error),
        }
    }
}

/// Whether `result` is the action or the error that `outcome` says.
pub open spec fn tells(result: Result<HandshakeAction, SocksError>, outcome: OutcomeView) -> bool {
    match (result, outcome) {
        (Ok(HandshakeAction::Read(more)), OutcomeView::Read(needed)) => more == needed,
        (Ok(HandshakeAction::Answer(reply)), OutcomeView::Answer(bytes)) => reply@ == bytes,
        (
            Ok(HandshakeAction::Reply { request, bytes }),
            OutcomeView::Reply { request: asked, bytes: reply },
        ) => request@ == asked && bytes@ == reply,
        (Ok(HandshakeAction::Connect(identity)), OutcomeView::Connect { recipient }) => identity@
            == recipient,
        (Ok(HandshakeAction::Close), OutcomeView::Close) => true,
        (Err(SocksError::ProtocolError(message)), OutcomeView::Refused(reason)) => message@
            == reason,
        (Err(SocksError::UnsupportedDestination), OutcomeView::Unsupported) => true,
        (Err(SocksError::IoError(error)), OutcomeView::Broken(failure)) => error == failure,
        _ => false,
    }
}

impl OutcomeView {
    /// The bytes that are written to the client.
    pub open spec fn bytes(self) -> Seq<u8> {
        match self {
            OutcomeView::Answer(bytes) => bytes,
            OutcomeView::Reply { bytes, .. } => bytes,
            _ => Seq::empty(),
        }
    }
}

impl Server {
    /// The answer to `request`.
    pub open spec fn reply(self, request: RequestView) -> Seq<u8> {
        match self {
            Server::Proxy => seq![5u8, 0u8, 0u8, 1u8, 10u8, 0u8, 0u8, 1u8],
            Server::Echo => echo_reply_bytes(request),
        }
    }

    /// What becomes of the client once `request` is answered: a proxy connects it to the hidden
    /// service that it asked for, or drops it if it asked for something else.
    pub open spec fn outcome(self, request: RequestView) -> OutcomeView {
        match self {
            Server::Proxy => match destination_names(request.fqdn) {
                Some(names) => OutcomeView::Connect { recipient: named_keys(names) },
                None => OutcomeView::Unsupported,
            },
            Server::Echo => OutcomeView::Close,
        }
    }

    /// Whether the hidden service that a proxy is asked for, if any, is named by keys.
    pub open spec fn can_judge(self, request: RequestView) -> bool {
        self is Proxy ==> (destination_names(request.fqdn) matches Some(names) ==> are_keys(names))
    }
}

/// What follows when these bytes of the offer have come in.
pub open spec fn after_offer(received: Seq<u8>) -> (StageView, OutcomeView) {
    match offer_verdict(received) {
        Verdict::NeedMore(more) => (StageView::Offer { received }, OutcomeView::Read(more)),
        Verdict::Done(reply) => (StageView::Answering, OutcomeView::Answer(reply)),
        Verdict::Refused(reason) => (StageView::Ended, OutcomeView::Refused(reason)),
    }
}

/// What follows when these bytes of the request have come in.
pub open spec fn after_request(server: Server, received: Seq<u8>) -> (StageView, OutcomeView) {
    match request_verdict(received) {
        Verdict::NeedMore(more) => (StageView::Request { received }, OutcomeView::Read(more)),
        Verdict::Done(request) => (
            StageView::Replying { request },
            OutcomeView::Reply { request, bytes: server.reply(request) },
        ),
        Verdict::Refused(reason) => (StageView::Ended, OutcomeView::Refused(reason)),
    }
}

impl HandshakeView {
    /// Whether `event` can come next: bytes come as far as they were asked for, and nothing comes
    /// once the handshake is over.
    pub open spec fn accepts(self, event: HandshakeEventView) -> bool {
        match (self.stage, event) {
            (StageView::Fresh, HandshakeEventView::Started) => true,
            (StageView::Offer { received }, HandshakeEventView::Received(bytes)) => offer_verdict(
                received,
            ) matches Verdict::NeedMore(more) && bytes.len() <= more,
            (StageView::Answering, HandshakeEventView::Written) => true,
            (StageView::Request { received }, HandshakeEventView::Received(bytes)) =>
                request_verdict(received) matches Verdict::NeedMore(more) && bytes.len() <= more,
            (StageView::Replying { request }, HandshakeEventView::Written) => self.server.can_judge(
                request,
            ),
            (StageView::Fresh | StageView::Ended, _) => false,
            (_, HandshakeEventView::Failed(_)) => true,
            _ => false,
        }
    }

    /// The next stage, and what the server does about `event`.
    pub open spec fn transition(self, event: HandshakeEventView) -> (StageView, OutcomeView) {
        match (self.stage, event) {
            (_, HandshakeEventView::Failed(error)) => (
                StageView::Ended,
                OutcomeView::Broken(error),
            ),
            (StageView::Fresh, _) => after_offer(Seq::empty()),
            (StageView::Offer { received }, HandshakeEventView::Received(bytes)) => after_offer(
                received + bytes,
            ),
            (StageView::Answering, _) => after_request(self.server, Seq::empty()),
            (StageView::Request { received }, HandshakeEventView::Received(bytes)) =>
                after_request(self.server, received + bytes),
            (StageView::Replying { request }, _) => (
                StageView::Ended,
                self.server.outcome(request),
            ),
            _ => (self.stage, OutcomeView::Close),
        }
    }

    /// The handshake after `event`.
    pub open spec fn after(self, event: HandshakeEventView) -> HandshakeView {
        HandshakeView { stage: self.transition(event).0, ..self }
    }

    /// What the server does about `event`.
    pub open spec fn reaction(self, event: HandshakeEventView) -> OutcomeView {
        self.transition(event).1
    }
}

impl Handshake {
    /// A handshake before anything has happened.
    pub fn new(server: Server) -> (handshake: Handshake)
        ensures
            handshake@ == (HandshakeView { server, stage: StageView::Fresh }),
    {
        Handshake { server, stage: Stage::Fresh }
    }

    /// Whether [`Handshake::advance`] can handle `event` next.
    pub fn can_handle(&self, event: &HandshakeEvent) -> (ready: bool)
        ensures
            ready == self@.accepts(event@),
    {
        match (&self.stage, event) {
            (Stage::Fresh, HandshakeEvent::Started) => true,
            (Stage::Offer(received), HandshakeEvent::Received(bytes)) => {
                match authenticate(received.as_slice()) {
                    Ok(Progress::NeedMore(more)) => bytes.len() <= more,
                    _ => false,
                }
            },
            (Stage::Answering, HandshakeEvent::Written) => true,
            (Stage::Request(received), HandshakeEvent::Received(bytes)) => {
                match receive_request(received.as_slice()) {
                    Ok(Progress::NeedMore(more)) => bytes.len() <= more,
                    _ => false,
                }
            },
            (Stage::Replying(request), HandshakeEvent::Written) => match self.server {
                Server::Proxy => try_parse_destination(request.fqdn.as_str()).is_some(),
                Server::Echo => true,
            },
            (Stage::Fresh, _) => false,
            (Stage::Ended, _) => false,
            (_, HandshakeEvent::Failed(_)) => true,
            _ => false,
        }
    }

    fn read_offer(&mut self, received: Vec<u8>) -> (result: Result<HandshakeAction, SocksError>)
        ensures
            final(self)@ == (HandshakeView { stage: after_offer(received@).0, ..old(self)@ }),
            tells(result, after_offer(received@).1),
    {
        match authenticate(received.as_slice()) {
            Ok(Progress::NeedMore(more)) => {
                self.stage = Stage::Offer(received);
                Ok(HandshakeAction::Read(more))
            },
            Ok(Progress::Done(reply)) => {
                self.stage = Stage::Answering;
                Ok(HandshakeAction::Answer(reply))
            },
            Err(error) => {
                self.stage = Stage::Ended;
                Err(error)
            },
        }
    }

    fn read_request(&mut self, received: Vec<u8>) -> (result: Result<HandshakeAction, SocksError>)
        ensures
            final(self)@ == (HandshakeView {
                stage: after_request(old(self)@.server, received@).0,
                ..old(self)@
            }),
            tells(result, after_request(old(self)@.server, received@).1),
    {
        match receive_request(received.as_slice()) {
            Ok(Progress::NeedMore(more)) => {
                self.stage = Stage::Request(received);
                Ok(HandshakeAction::Read(more))
            },
            Ok(Progress::Done(request)) => {
                let bytes = match self.server {
                    Server::Proxy => connect_reply(),
                    Server::Echo => echo_reply(&request),
                };
                let kept = SocksRequest { fqdn: request.fqdn.clone(), port: request.port };
                self.stage = Stage::Replying(kept);
                Ok(HandshakeAction::Reply { request, bytes })
            },
            Err(error) => {
                self.stage = Stage::Ended;
                Err(error)
            },
        }
    }

    /// Advances the handshake by one event and says what to do about it. An error ends the
    /// connection, with nothing written.
    pub fn advance(&mut self, event: HandshakeEvent) -> (result: Result<
        HandshakeAction,
        SocksError,
    >)
        requires
            old(self)@.accepts(event@),
        ensures
            final(self)@ == old(self)@.after(event@),
            tells(result, old(self)@.reaction(event@)),
    {
        let mut stage = Stage::Ended;
        std::mem::swap(&mut self.stage, &mut stage);
        match (stage, event) {
            (_, HandshakeEvent::Failed(error)) => Err(SocksError::from(error)),
            (Stage::Offer(mut received), HandshakeEvent::Received(mut bytes)) => {
                received.append(&mut bytes);
                self.read_offer(received)
            },
            (Stage::Request(mut received), HandshakeEvent::Received(mut bytes)) => {
                received.append(&mut bytes);
                self.read_request(received)
            },
            (Stage::Fresh, _) => self.read_offer(Vec::new()),
            (Stage::Answering, _) => self.read_request(Vec::new()),
            (Stage::Replying(request), _) => match self.server {
                Server::Proxy => match parse_destination(request.fqdn.as_str()) {
                    Ok(identity) => Ok(HandshakeAction::Connect(identity)),
                    Err(error) => Err(error),
                },
                Server::Echo => Ok(HandshakeAction::Close),
            },
            _ => Ok(HandshakeAction::Close),
        }
    }
}

/// Everything that happens during one handshake, from its start on.
#[verifier::ext_equal]
pub struct Dialogue {
    pub server: Server,
    pub events: Seq<HandshakeEventView>,
}

impl Dialogue {
    /// The handshake after the first `n` events.
    pub open spec fn state(self, n: nat) -> HandshakeView
        decreases n,
    {
        if n == 0 {
            HandshakeView { server: self.server, stage: StageView::Fresh }
        } else {
            self.state((n - 1) as nat).after(self.events[n - 1])
        }
    }

    /// What the server does about the event number `i`, counted from zero.
    pub open spec fn outcome(self, i: int) -> OutcomeView {
        self.state(i as nat).reaction(self.events[i])
    }

    /// All the bytes that were read from the client.
    pub open spec fn received(self, n: nat) -> Seq<u8>
        decreases n,
    {
        if n == 0 {
            Seq::empty()
        } else {
            let before = self.received((n - 1) as nat);
            match self.events[n - 1] {
                HandshakeEventView::Received(bytes) => before + bytes,
                _ => before,
            }
        }
    }

    /// All the bytes that were handed out to be written to the client.
    pub open spec fn written(self, n: nat) -> Seq<u8>
        decreases n,
    {
        if n == 0 {
            Seq::empty()
        } else {
            self.written((n - 1) as nat) + self.outcome(n - 1).bytes()
        }
    }

    /// Whether the event number `i` comes while the handshake can handle it.
    pub open spec fn handles(self, i: int) -> bool {
        self.state(i as nat).accepts(self.events[i])
    }

    /// A dialogue in which each event comes while the handshake can handle it.
    pub open spec fn valid(self) -> bool {
        forall|i: int| 0 <= i < self.events.len() ==> #[trigger] self.handles(i)
    }

    /// Whether the socket works during the first `n` events.
    pub open spec fn unbroken(self, n: nat) -> bool {
        forall|i: int| 0 <= i < n ==> (#[trigger] self.events[i]) !is Failed
    }

    /// Whether an answer is being written after the first `n` events.
    pub open spec fn is_writing(self, n: nat) -> bool {
        self.state(n).stage is Answering || self.state(n).stage is Replying
    }
}

/// The number of bytes of the complete offer that starts `received`.
pub open spec fn offer_len(received: Seq<u8>) -> int {
    2 + received[1]
}

/// What a server has written by the time that a client has sent `received`, and what it does
/// next: it judges the offer, answers it, judges the request behind it, answers that, and judges
/// the destination last.
pub open spec fn conversation(server: Server, received: Seq<u8>) -> (Seq<u8>, OutcomeView) {
    match offer_verdict(received) {
        Verdict::NeedMore(more) => (Seq::empty(), OutcomeView::Read(more)),
        Verdict::Refused(reason) => (Seq::empty(), OutcomeView::Refused(reason)),
        Verdict::Done(answer) => match request_verdict(received.skip(offer_len(received))) {
            Verdict::NeedMore(more) => (answer, OutcomeView::Read(more)),
            Verdict::Refused(reason) => (answer, OutcomeView::Refused(reason)),
            Verdict::Done(request) => (answer + server.reply(request), server.outcome(request)),
        },
    }
}

/// What the stage of a handshake tells of what was read and written.
spec fn fits(server: Server, stage: StageView, received: Seq<u8>, written: Seq<u8>) -> bool {
    let rest = received.skip(offer_len(received));
    match stage {
        StageView::Fresh => received.len() == 0 && written.len() == 0,
        StageView::Offer { received: offer } => received == offer && written.len() == 0
            && offer_verdict(received) is NeedMore,
        StageView::Answering => offer_verdict(received) == Verdict::Done(written) && received.len()
            == offer_len(received),
        StageView::Request { received: bytes } => offer_verdict(received) == Verdict::Done(written)
            && rest == bytes && request_verdict(rest) is NeedMore,
        StageView::Replying { request } => request_verdict(rest) == Verdict::Done(request) && (
        offer_verdict(received) matches Verdict::Done(answer) && written == answer + server.reply(
            request,
        )),
        StageView::Ended => true,
    }
}

/// Whether a step leads where the client's bytes lead: its stage fits them, and unless an answer
/// is under way, so do what has been written and what is done next.
spec fn lands(
    server: Server,
    step: (StageView, OutcomeView),
    received: Seq<u8>,
    written: Seq<u8>,
) -> bool {
    &&& fits(server, step.0, received, written)
    &&& step.0 is Answering || step.0 is Replying || (written, step.1) == conversation(
        server,
        received,
    )
}

proof fn offers_land(server: Server, offer: Seq<u8>, bytes: Seq<u8>)
    requires
        offer_verdict(offer) matches Verdict::NeedMore(more) && bytes.len() <= more,
    ensures
        lands(
            server,
            after_offer(offer + bytes),
            offer + bytes,
            after_offer(offer + bytes).1.bytes(),
        ),
{
    let received = offer + bytes;
    if offer_verdict(received) is Done {
        assert(received.len() == offer_len(received));
    }
}

proof fn requests_land(server: Server, received: Seq<u8>, written: Seq<u8>, request: Seq<u8>)
    requires
        offer_verdict(received) == Verdict::Done(written),
        received.skip(offer_len(received)) == request,
    ensures
        lands(
            server,
            after_request(server, request),
            received,
            written + after_request(server, request).1.bytes(),
        ),
{
    assert(written + Seq::<u8>::empty() =~= written);
    match request_verdict(request) {
        Verdict::NeedMore(_) => {},
        Verdict::Refused(_) => {},
        Verdict::Done(_) => {},
    }
}

/// One event keeps what the stage tells.
proof fn steps_land(
    handshake: HandshakeView,
    event: HandshakeEventView,
    received: Seq<u8>,
    written: Seq<u8>,
)
    requires
        fits(handshake.server, handshake.stage, received, written),
        handshake.accepts(event),
        event !is Failed,
    ensures
        lands(
            handshake.server,
            handshake.transition(event),
            match event {
                HandshakeEventView::Received(bytes) => received + bytes,
                _ => received,
            },
            written + handshake.reaction(event).bytes(),
        ),
{
    let nothing = Seq::<u8>::empty();
    match handshake.stage {
        StageView::Fresh => {
            assert(received =~= nothing);
            assert(nothing + nothing =~= nothing);
            offers_land(handshake.server, nothing, nothing);
            assert(written + handshake.reaction(event).bytes()
                =~= handshake.reaction(event).bytes());
        },
        StageView::Offer { received: offer } => {
            offers_land(handshake.server, offer, event->Received_0);
            assert(written + handshake.reaction(event).bytes()
                =~= handshake.reaction(event).bytes());
        },
        StageView::Answering => {
            assert(received.skip(offer_len(received)) =~= nothing);
            requests_land(handshake.server, received, written, nothing);
        },
        StageView::Request { received: bytes } => {
            let more = event->Received_0;
            decided_offers_stay(received, more);
            assert((received + more).skip(offer_len(received)) =~= bytes + more);
            requests_land(handshake.server, received + more, written, bytes + more);
        },
        StageView::Replying { request } => {
            assert(written + nothing =~= written);
        },
        StageView::Ended => {},
    }
}

proof fn stages_fit(dialogue: Dialogue, n: nat)
    requires
        dialogue.valid(),
        dialogue.unbroken(n),
        n <= dialogue.events.len(),
    ensures
        dialogue.state(n).server == dialogue.server,
        fits(dialogue.server, dialogue.state(n).stage, dialogue.received(n), dialogue.written(n)),
        n > 0 ==> lands(
            dialogue.server,
            (dialogue.state(n).stage, dialogue.outcome(n - 1)),
            dialogue.received(n),
            dialogue.written(n),
        ),
    decreases n,
{
    if n > 0 {
        let m = (n - 1) as nat;
        stages_fit(dialogue, m);
        let event = dialogue.events[m as int];
        assert(dialogue.handles(m as int));
        assert(event !is Failed);
        steps_land(dialogue.state(m), event, dialogue.received(m), dialogue.written(m));
        let (stage, outcome) = dialogue.state(m).transition(event);
        assert(dialogue.state(n).stage == stage);
        assert(dialogue.outcome(n - 1) == outcome);
    }
}

/// While the socket works and no answer is under way, what a server has written and what it does
/// next depend on the bytes of the client alone, however they come in.
pub proof fn handshakes_follow_the_client(dialogue: Dialogue, n: nat)
    requires
        dialogue.valid(),
        dialogue.unbroken(n),
        0 < n <= dialogue.events.len(),
        !dialogue.is_writing(n),
    ensures
        dialogue.written(n) == conversation(dialogue.server, dialogue.received(n)).0,
        dialogue.outcome(n - 1) == conversation(dialogue.server, dialogue.received(n)).1,
{
    stages_fit(dialogue, n);
}

/// Once a handshake is over, nothing more is read or written: no event comes after an error, a
/// connection or the end.
pub proof fn handshakes_end_once(dialogue: Dialogue, i: int)
    requires
        dialogue.valid(),
        0 <= i < dialogue.events.len(),
        ({
            let outcome = dialogue.outcome(i);
            ||| outcome is Connect
            ||| outcome is Close
            ||| outcome is Refused
            ||| outcome is Unsupported
            ||| outcome is Broken
        }),
    ensures
        dialogue.state((i + 1) as nat).stage is Ended,
        dialogue.events.len() == i + 1,
{
    assert(dialogue.handles(i));
    if dialogue.events.len() > i + 1 {
        assert(dialogue.handles(i + 1));
    }
}

/// A refused offer ends the connection with the error that says why. Nothing is answered, and no
/// request is read.
pub proof fn refused_offers_end_the_connection(dialogue: Dialogue, n: nat)
    requires
        dialogue.valid(),
        dialogue.unbroken(n),
        0 < n <= dialogue.events.len(),
        offer_verdict(dialogue.received(n)) is Refused,
    ensures
        dialogue.outcome(n - 1) == OutcomeView::Refused(
            offer_verdict(dialogue.received(n))->Refused_0,
        ),
        dialogue.written(n) == Seq::<u8>::empty(),
        dialogue.state(n).stage is Ended,
        dialogue.events.len() == n,
{
    stages_fit(dialogue, n);
    handshakes_end_once(dialogue, n - 1);
}

/// A refused request ends the connection with the error that says why. Only the offer has been
/// answered.
pub proof fn refused_requests_end_the_connection(dialogue: Dialogue, n: nat)
    requires
        dialogue.valid(),
        dialogue.unbroken(n),
        0 < n <= dialogue.events.len(),
        offer_verdict(dialogue.received(n)) is Done,
        request_verdict(
            dialogue.received(n).skip(offer_len(dialogue.received(n))),
        ) is Refused,
    ensures
        dialogue.outcome(n - 1) == OutcomeView::Refused(
            request_verdict(
                dialogue.received(n).skip(offer_len(dialogue.received(n))),
            )->Refused_0,
        ),
        dialogue.written(n) == seq![5u8, 0u8],
        dialogue.state(n).stage is Ended,
        dialogue.events.len() == n,
{
    stages_fit(dialogue, n);
    let received = dialogue.received(n);
    if received.len() == offer_len(received) {
        assert(received.skip(offer_len(received)) =~= Seq::<u8>::empty());
    }
    handshakes_end_once(dialogue, n - 1);
}

/// A failure of the socket ends the handshake with that failure, at whatever stage.
pub proof fn failures_end_the_handshake(handshake: HandshakeView, error: std::io::Error)
    requires
        handshake.accepts(HandshakeEventView::Failed(error)),
    ensures
        handshake.after(HandshakeEventView::Failed(error)).stage is Ended,
        handshake.reaction(HandshakeEventView::Failed(error)) == OutcomeView::Broken(error),
        handshake.reaction(HandshakeEventView::Failed(error)).bytes() == Seq::<u8>::empty(),
{
}

proof fn nothing_comes_after_a_failure(dialogue: Dialogue, i: int)
    requires
        dialogue.valid(),
        0 <= i < dialogue.events.len(),
        dialogue.events[i] is Failed,
    ensures
        dialogue.events.len() == i + 1,
{
    let handshake = dialogue.state(i as nat);
    assert(dialogue.handles(i));
    failures_end_the_handshake(handshake, dialogue.events[i]->Failed_0);
    assert(dialogue.state((i + 1) as nat) == handshake.after(dialogue.events[i]));
    if dialogue.events.len() > i + 1 {
        assert(dialogue.handles(i + 1));
    }
}

/// What has been written when a proxy has replied to a request.
proof fn replies_follow_answers(request: RequestView, received: Seq<u8>, written: Seq<u8>)
    requires
        fits(Server::Proxy, StageView::Replying { request }, received, written),
    ensures
        written == seq![5u8, 0u8] + seq![5u8, 0u8, 0u8, 1u8, 10u8, 0u8, 0u8, 1u8],
        offer_verdict(received) is Done,
        request_verdict(received.skip(offer_len(received))) == Verdict::Done(request),
{
}

/// Only a proxy whose reply has been written judges a destination.
proof fn judgements_follow_replies(handshake: HandshakeView, event: HandshakeEventView)
    requires
        handshake.accepts(event),
        handshake.reaction(event) is Connect || handshake.reaction(event) is Unsupported,
    ensures
        handshake.stage is Replying,
        handshake.server is Proxy,
        event is Written,
        handshake.reaction(event) == handshake.server.outcome(handshake.stage->request),
{
}

/// Nothing comes after a failure.
proof fn failures_come_last(dialogue: Dialogue, n: nat)
    requires
        dialogue.valid(),
        0 < n <= dialogue.events.len(),
        dialogue.events[n - 1] !is Failed,
    ensures
        dialogue.unbroken(n),
{
    assert forall|i: int| 0 <= i < n implies (#[trigger] dialogue.events[i]) !is Failed by {
        if dialogue.events[i] is Failed {
            nothing_comes_after_a_failure(dialogue, i);
        }
    }
}

/// A proxy answers the request before it judges the destination: by the time that it connects a
/// client, or drops it for its destination, both answers have been written.
pub proof fn requests_are_answered_before_they_are_judged(dialogue: Dialogue, n: nat)
    requires
        dialogue.valid(),
        0 < n <= dialogue.events.len(),
        dialogue.outcome(n - 1) is Connect || dialogue.outcome(n - 1) is Unsupported,
    ensures
        dialogue.server is Proxy,
        dialogue.written(n) == seq![5u8, 0u8] + seq![5u8, 0u8, 0u8, 1u8, 10u8, 0u8, 0u8, 1u8],
        ({
            let received = dialogue.received(n);
            &&& offer_verdict(received) is Done
            &&& request_verdict(received.skip(offer_len(received))) matches Verdict::Done(request)
                && dialogue.outcome(n - 1) == dialogue.server.outcome(request)
        }),
{
    let m = (n - 1) as nat;
    assert(dialogue.handles(m as int));
    judgements_follow_replies(dialogue.state(m), dialogue.events[m as int]);
    failures_come_last(dialogue, n);
    stages_fit(dialogue, m);
    assert(dialogue.received(n) == dialogue.received(m));
    assert(dialogue.written(n) =~= dialogue.written(m));
    replies_follow_answers(
        dialogue.state(m).stage->request,
        dialogue.received(m),
        dialogue.written(m),
    );
}

/// A result that tells an outcome is that very action or that very error, and says nothing else.
pub proof fn results_are_exact(result: Result<HandshakeAction, SocksError>, outcome: OutcomeView)
    requires
        tells(result, outcome),
    ensures
        match outcome {
            OutcomeView::Read(more) => result matches Ok(HandshakeAction::Read(asked)) && asked
                == more,
            OutcomeView::Answer(bytes) => result matches Ok(HandshakeAction::Answer(answer))
                && answer@ == bytes,
            OutcomeView::Reply { request, bytes } => result matches Ok(
                HandshakeAction::Reply { request: asked, bytes: reply },
            ) && asked@ == request && reply@ == bytes,
            OutcomeView::Connect { recipient } => result matches Ok(
                HandshakeAction::Connect(identity),
            ) && identity@ == recipient,
            OutcomeView::Close => result matches Ok(HandshakeAction::Close),
            OutcomeView::Refused(reason) => result matches Err(SocksError::ProtocolError(message))
                && message@ == reason,
            OutcomeView::Unsupported => result matches Err(SocksError::UnsupportedDestination),
            OutcomeView::Broken(failure) => result matches Err(SocksError::IoError(error)) && error
                == failure,
        },
{
}

/// The whole of what a client sends that offers `methods` and asks for a host and a port.
pub open spec fn client_bytes(methods: Seq<u8>, fqdn: Seq<char>, port: u16) -> Seq<u8> {
    let name = encode_utf8(fqdn);
    seq![5u8, methods.len() as u8] + methods + seq![5u8, 1, 0, 3, name.len() as u8] + name + seq![
        (port / 256) as u8,
        (port % 256) as u8,
    ]
}

/// What becomes of a client that offers the open method and asks for a host and a port.
proof fn requests_are_served(server: Server, methods: Seq<u8>, request: RequestView)
    requires
        methods.len() <= 255,
        methods.contains(0u8),
        encode_utf8(request.fqdn).len() <= 255,
    ensures
        conversation(server, client_bytes(methods, request.fqdn, request.port)) == (
            seq![5u8, 0u8] + server.reply(request),
            server.outcome(request),
        ),
{
    let name = encode_utf8(request.fqdn);
    let offer = seq![5u8, methods.len() as u8] + methods;
    let asked = seq![5u8, 1, 0, 3, name.len() as u8] + name + seq![
        (request.port / 256) as u8,
        (request.port % 256) as u8,
    ];
    let received = client_bytes(methods, request.fqdn, request.port);
    assert(received =~= offer + asked);
    offers_need_the_open_method(methods);
    decided_offers_stay(offer, asked);
    assert(received.skip(offer_len(received)) =~= asked);
    assert(asked + Seq::<u8>::empty() =~= asked);
    hosts_and_ports_are_understood(request.fqdn, request.port, Seq::empty());
}

/// A client of a proxy that offers the open method, among whatever others, and asks for the host
/// name of a hidden service is connected to that service, whatever its keys and whatever the port:
/// both answers are written, and the recipient is the client's key and the gateway's key.
pub proof fn clients_are_connected_to_the_service_they_ask_for(
    dialogue: Dialogue,
    n: nat,
    methods: Seq<u8>,
    client: Seq<char>,
    gateway: Seq<char>,
    rest: Seq<char>,
    port: u16,
)
    requires
        dialogue.valid(),
        dialogue.unbroken(n),
        dialogue.server is Proxy,
        0 < n <= dialogue.events.len(),
        !dialogue.is_writing(n),
        methods.len() <= 255,
        methods.contains(0u8),
        base58_decoded(client) matches Some(key) && key.len() == 32,
        base58_decoded(gateway) matches Some(key) && key.len() == 32,
        rest.len() > 0 ==> rest[0] == '.',
        ({
            let fqdn = client + seq!['.'] + gateway + seq!['.', 'n', 'y', 'm'] + rest;
            &&& encode_utf8(fqdn).len() <= 255
            &&& dialogue.received(n) == client_bytes(methods, fqdn, port)
        }),
    ensures
        dialogue.outcome(n - 1) == (OutcomeView::Connect {
            recipient: base58_decoded(client)->Some_0 + base58_decoded(gateway)->Some_0,
        }),
        dialogue.written(n) == seq![5u8, 0, 5, 0, 0, 1, 10, 0, 0, 1],
{
    let fqdn = client + seq!['.'] + gateway + seq!['.', 'n', 'y', 'm'] + rest;
    handshakes_follow_the_client(dialogue, n);
    requests_are_served(dialogue.server, methods, RequestView { fqdn, port });
    keys_are_found_in_host_names_and_addresses(
        client,
        gateway,
        base58_decoded(client)->Some_0,
        base58_decoded(gateway)->Some_0,
        rest,
    );
    assert(dialogue.written(n) =~= seq![5u8, 0, 5, 0, 0, 1, 10, 0, 0, 1]);
}

/// A client of an echo server that offers the open method, among whatever others, and asks for a
/// host and a port gets both answers, the second with that host and that port, and is let go.
pub proof fn clients_are_told_what_they_asked_for(
    dialogue: Dialogue,
    n: nat,
    methods: Seq<u8>,
    fqdn: Seq<char>,
    port: u16,
)
    requires
        dialogue.valid(),
        dialogue.unbroken(n),
        dialogue.server is Echo,
        0 < n <= dialogue.events.len(),
        !dialogue.is_writing(n),
        methods.len() <= 255,
        methods.contains(0u8),
        encode_utf8(fqdn).len() <= 255,
        dialogue.received(n) == client_bytes(methods, fqdn, port),
    ensures
        dialogue.outcome(n - 1) is Close,
        dialogue.written(n) == seq![5u8, 0, 5, 0, 0, 3, encode_utf8(fqdn).len() as u8]
            + encode_utf8(fqdn) + seq![(port / 256) as u8, (port % 256) as u8],
{
    let name = encode_utf8(fqdn);
    handshakes_follow_the_client(dialogue, n);
    requests_are_served(dialogue.server, methods, RequestView { fqdn, port });
    echoes_hold_host_and_port(RequestView { fqdn, port });
    assert(name.len() % 256 == name.len());
    assert(dialogue.written(n) =~= seq![5u8, 0, 5, 0, 0, 3, name.len() as u8] + name + seq![
        (port / 256) as u8,
        (port % 256) as u8,
    ]);
}

/// A proxy that has written its reply judges the destination by the host name alone, never by the
/// port. It connects the client to the two keys if the name is made of their Base58 texts and
/// `nym`, and turns the client away only if the name is not of that form at all.
pub proof fn destinations_are_judged_by_their_name(
    client: Seq<char>,
    gateway: Seq<char>,
    rest: Seq<char>,
    port: u16,
    fqdn: Seq<char>,
    other_port: u16,
)
    requires
        !client.contains('.'),
        !gateway.contains('.'),
        rest.len() > 0 ==> rest[0] == '.',
    ensures
        ({
            let name = client + seq!['.'] + gateway + seq!['.', 'n', 'y', 'm'] + rest;
            let replied = HandshakeView {
                server: Server::Proxy,
                stage: StageView::Replying { request: RequestView { fqdn: name, port } },
            };
            let written = HandshakeEventView::Written;
            let are_keys = (base58_decoded(client) matches Some(key) && key.len() == 32) && (
            base58_decoded(gateway) matches Some(key) && key.len() == 32);
            &&& replied.reaction(written) !is Unsupported
            &&& replied.accepts(written) <==> are_keys
            &&& are_keys ==> replied.reaction(written) == (OutcomeView::Connect {
                recipient: base58_decoded(client)->Some_0 + base58_decoded(gateway)->Some_0,
            })
        }),
        ({
            let replied = |port: u16|
                HandshakeView {
                    server: Server::Proxy,
                    stage: StageView::Replying { request: RequestView { fqdn, port } },
                };
            let written = HandshakeEventView::Written;
            &&& replied(port).reaction(written) == replied(other_port).reaction(written)
            &&& replied(port).accepts(written) == replied(other_port).accepts(written)
            &&& replied(port).reaction(written) is Unsupported
                || replied(port).reaction(written) is Connect
        }),
{
    host_names_name_client_and_gateway(client, gateway, rest);
    keys_have_32_bytes(client, gateway);
}

/// A proxy connects a client to nothing but what its host name says: where it does connect, the
/// name is two Base58 texts without a dot and `nym`, joined by dots, and their keys are the
/// recipient.
pub proof fn connections_lead_where_the_name_says(request: RequestView)
    ensures
        ({
            let replied = HandshakeView {
                server: Server::Proxy,
                stage: StageView::Replying { request },
            };
            replied.reaction(HandshakeEventView::Written) matches OutcomeView::Connect { recipient }
                ==> exists|client: Seq<char>, gateway: Seq<char>| #[trigger]
                is_service_name(request.fqdn, client, gateway) && recipient == base58_decoded(
                    client,
                )->Some_0 + base58_decoded(gateway)->Some_0
        }),
{
    other_host_names_name_nobody(request.fqdn);
    if let Some((client, gateway)) = destination_names(request.fqdn) {
        assert(is_service_name(request.fqdn, client, gateway));
    }
}

/// An echo server answers every request with that request: it reads an offer and a request, and
/// by the time that it lets the client go it has written the answer to the offer and, behind
/// success, the bytes of the request from its address type on.
pub proof fn echo_servers_repeat_what_they_read(dialogue: Dialogue, n: nat)
    requires
        dialogue.valid(),
        dialogue.server is Echo,
        0 < n <= dialogue.events.len(),
        dialogue.outcome(n - 1) is Close,
    ensures
        ({
            let received = dialogue.received(n);
            let asked = received.skip(2 + received[1]);
            &&& offer_verdict(received) is Done
            &&& request_verdict(asked) is Done
            &&& asked.len() >= 7 + asked[4]
            &&& dialogue.written(n) == seq![5u8, 0, 5, 0, 0] + asked.subrange(3, 7 + asked[4])
        }),
{
    let m = (n - 1) as nat;
    let received = dialogue.received(n);
    assert(dialogue.handles(m as int));
    closing_follows_replies(dialogue.state(m), dialogue.events[m as int]);
    failures_come_last(dialogue, n);
    stages_fit(dialogue, m);
    assert(received == dialogue.received(m));
    assert(dialogue.written(n) =~= dialogue.written(m));
    echoes_follow_answers(dialogue.state(m).stage->request, received, dialogue.written(m));
}

/// Only an echo server whose reply has been written lets a client go.
proof fn closing_follows_replies(handshake: HandshakeView, event: HandshakeEventView)
    requires
        handshake.accepts(event),
        handshake.reaction(event) is Close,
    ensures
        handshake.stage is Replying,
        event is Written,
{
}

/// What has been written when an echo server has replied to a request.
proof fn echoes_follow_answers(request: RequestView, received: Seq<u8>, written: Seq<u8>)
    requires
        fits(Server::Echo, StageView::Replying { request }, received, written),
    ensures
        ({
            let asked = received.skip(2 + received[1]);
            &&& offer_verdict(received) is Done
            &&& request_verdict(asked) is Done
            &&& asked.len() >= 7 + asked[4]
            &&& written == seq![5u8, 0, 5, 0, 0] + asked.subrange(3, 7 + asked[4])
        }),
{
    let asked = received.skip(2 + received[1]);
    echoes_repeat_the_request(asked);
    only_requests_are_understood(asked);
    assert(written =~= seq![5u8, 0, 5, 0, 0] + asked.subrange(3, 7 + asked[4]));
}

/// A handshake goes on as it says: it starts, it takes the bytes that it asks for, at least one,
/// in any portions and no more, it waits for its answers to be written, and it takes note of a
/// failure at any time in between.
pub proof fn handshakes_go_on(dialogue: Dialogue, n: nat, bytes: Seq<u8>, error: std::io::Error)
    requires
        dialogue.valid(),
        n <= dialogue.events.len(),
    ensures
        n == 0 ==> dialogue.state(n).accepts(HandshakeEventView::Started),
        n > 0 ==> match dialogue.outcome(n - 1) {
            OutcomeView::Read(more) => {
                &&& more >= 1
                &&& dialogue.state(n).accepts(HandshakeEventView::Received(bytes)) <==> bytes.len()
                    <= more
                &&& dialogue.state(n).accepts(HandshakeEventView::Failed(error))
            },
            OutcomeView::Answer(_) => {
                &&& dialogue.state(n).accepts(HandshakeEventView::Written)
                &&& dialogue.state(n).accepts(HandshakeEventView::Failed(error))
            },
            OutcomeView::Reply { request, .. } => {
                &&& dialogue.state(n).stage == (StageView::Replying { request })
                &&& dialogue.server is Echo ==> dialogue.state(n).accepts(
                    HandshakeEventView::Written,
                )
                &&& dialogue.state(n).accepts(HandshakeEventView::Failed(error))
            },
            _ => dialogue.state(n).stage is Ended,
        },
{
    servers_stay(dialogue, n);
    if n > 0 {
        let m = (n - 1) as nat;
        servers_stay(dialogue, m);
        assert(dialogue.handles(m as int));
        steps_go_on(dialogue.state(m), dialogue.events[m as int], bytes, error);
    }
}

proof fn servers_stay(dialogue: Dialogue, n: nat)
    ensures
        dialogue.state(n).server == dialogue.server,
    decreases n,
{
    if n > 0 {
        servers_stay(dialogue, (n - 1) as nat);
    }
}

proof fn steps_go_on(
    handshake: HandshakeView,
    event: HandshakeEventView,
    bytes: Seq<u8>,
    error: std::io::Error,
)
    requires
        handshake.accepts(event),
    ensures
        ({
            let next = handshake.after(event);
            match handshake.reaction(event) {
                OutcomeView::Read(more) => {
                    &&& more >= 1
                    &&& next.accepts(HandshakeEventView::Received(bytes)) <==> bytes.len() <= more
                    &&& next.accepts(HandshakeEventView::Failed(error))
                },
                OutcomeView::Answer(_) => {
                    &&& next.accepts(HandshakeEventView::Written)
                    &&& next.accepts(HandshakeEventView::Failed(error))
                },
                OutcomeView::Reply { request, .. } => {
                    &&& next.stage == (StageView::Replying { request })
                    &&& handshake.server is Echo ==> next.accepts(HandshakeEventView::Written)
                    &&& next.accepts(HandshakeEventView::Failed(error))
                },
                _ => next.stage is Ended,
            }
        }),
{
}

} // verus!
