//! One endpoint of a connection together with its local socket and its channel to the mixnet,
//! either of which may fail.
//!
//! The driver hands out the steps of the endpoint one at a time, and the next one only when the
//! last one has succeeded. The first failure ends the endpoint.

use vstd::prelude::*;

use tokio::sync::mpsc::error::SendError;

use crate::course::Course;
use crate::error::SocksError;
use crate::identity::Identity;
use crate::packet::{opening, ConnectionId, Packet, Payload};
use crate::transport::{
    reliable_transport, steps_view, EventView, StepView, Transport, TransportEvent, TransportStep,
    TransportView,
};

verus! {

/// An endpoint and what it is doing.
#[derive(Debug)]
pub struct Driver {
    transport: Transport,
    phase: Phase,
}

#[derive(Debug)]
enum Phase {
    Waiting,
    Writing(Vec<TransportStep>),
    Sending(Vec<TransportStep>),
    Ended,
}

/// The mathematical content of a [`Driver`].
#[verifier::ext_equal]
pub struct DriverView {
    pub transport: TransportView,
    pub phase: PhaseView,
}

/// What an endpoint is doing.
#[verifier::ext_equal]
pub enum PhaseView {
    /// It waits for the next event.
    Waiting,
    /// It writes to its socket, and has these steps left.
    Writing { left: Seq<StepView> },
    /// It sends a packet, and has these steps left.
    Sending { left: Seq<StepView> },
    /// It has ended.
    Ended,
}

/// What happens to an endpoint and to its socket and its channel.
#[derive(Debug)]
pub enum DriverEvent {
    /// This happened to the endpoint.
    Happened(TransportEvent),
    /// The local socket could not be read.
    ReadFailed(std::io::Error),
    /// The write to the local socket is over.
    Written(Result<(), std::io::Error>),
    /// The packet is in the channel to the mixnet, or the channel did not take it.
    Sent(Result<(), SendError<Packet>>),
}

/// The mathematical content of a [`DriverEvent`].
#[verifier::ext_equal]
pub enum DriverEventView {
    Happened(EventView),
    ReadFailed(std::io::Error),
    Written(Result<(), std::io::Error>),
    Sent { taken: bool },
}

/// What an event leads to.
#[verifier::ext_equal]
pub enum Outcome {
    /// This step is next.
    Step(StepView),
    /// Nothing is to be done before the next event.
    Wait,
    /// The socket failed: the endpoint ends with that failure.
    Broken(std::io::Error),
    /// The channel is closed: the endpoint ends.
    Dropped,
}

impl View for Driver {
    type V = DriverView;

    closed spec fn view(&self) -> DriverView {
        DriverView {
            transport: self.transport@,
            phase: match self.phase {
                Phase::Waiting => PhaseView::Waiting,
                Phase::Writing(left) => PhaseView::Writing { left: steps_view(left@) },
                Phase::Sending(left) => PhaseView::Sending { left: steps_view(left@) },
                Phase::Ended => PhaseView::Ended,
            },
        }
    }
}

impl View for DriverEvent {
    type V = DriverEventView;

    open spec fn view(&self) -> DriverEventView {
        match *self {
            DriverEvent::Happened(event) => DriverEventView::Happened(event@),
            DriverEvent::ReadFailed(error) => DriverEventView::ReadFailed(error),
            DriverEvent::Written(result) => DriverEventView::Written(result),
            DriverEvent::Sent(result) => DriverEventView::Sent { taken: result is Ok },
        }
    }
}

/// Whether `result` is the step or the error that `outcome` says.
pub open spec fn yields(
    result: Result<Option<TransportStep>, SocksError>,
    outcome: Outcome,
) -> bool {
    match (result, outcome) {
        (Ok(Some(step)), Outcome::Step(next)) => step@ == next,
        (Ok(None), Outcome::Wait) => true,
        (Err(SocksError::IoError(error)), Outcome::Broken(failure)) => error == failure,
        (Err(SocksError::ConnectionDropped), Outcome::Dropped) => true,
        _ => false,
    }
}

/// What is next when `steps` are left.
pub open spec fn next_of(steps: Seq<StepView>) -> (PhaseView, Outcome) {
    if steps.len() == 0 {
        (PhaseView::Waiting, Outcome::Wait)
    } else {
        let left = steps.drop_first();
        match steps[0] {
            StepView::Write(_) => (PhaseView::Writing { left }, Outcome::Step(steps[0])),
            StepView::Send(_) => (PhaseView::Sending { left }, Outcome::Step(steps[0])),
        }
    }
}

impl PhaseView {
    /// The steps that have not been handed out yet.
    pub open spec fn left(self) -> Seq<StepView> {
        match self {
            PhaseView::Writing { left } => left,
            PhaseView::Sending { left } => left,
            _ => Seq::empty(),
        }
    }
}

impl DriverView {
    /// Whether `event` can come next: something happens only while no step is under way, a step
    /// is reported once, and nothing comes after the end.
    pub open spec fn accepts(self, event: DriverEventView) -> bool {
        match event {
            DriverEventView::Happened(event) => self.phase is Waiting && self.transport.accepts(
                event,
            ),
            DriverEventView::ReadFailed(_) => self.phase is Waiting && self.transport.unacked
                is None,
            DriverEventView::Written(_) => self.phase is Writing,
            DriverEventView::Sent { .. } => self.phase is Sending,
        }
    }

    /// The next phase, and what `event` leads to.
    pub open spec fn transition(self, event: DriverEventView) -> (PhaseView, Outcome) {
        match event {
            DriverEventView::Happened(event) => next_of(self.transport.reaction(event).steps()),
            DriverEventView::Written(Ok(_)) => next_of(self.phase.left()),
            DriverEventView::Sent { taken: true } => next_of(self.phase.left()),
            DriverEventView::ReadFailed(error) => (PhaseView::Ended, Outcome::Broken(error)),
            DriverEventView::Written(Err(error)) => (PhaseView::Ended, Outcome::Broken(error)),
            DriverEventView::Sent { taken: false } => (PhaseView::Ended, Outcome::Dropped),
        }
    }

    /// The driver after `event`.
    pub open spec fn after(self, event: DriverEventView) -> DriverView {
        DriverView {
            transport: match event {
                DriverEventView::Happened(event) => self.transport.after(event),
                _ => self.transport,
            },
            phase: self.transition(event).0,
        }
    }

    /// What `event` leads to.
    pub open spec fn outcome(self, event: DriverEventView) -> Outcome {
        self.transition(event).1
    }
}

impl Driver {
    /// The endpoint of a proxy, which opens the connection `stream` to `recipient`.
    pub fn of_proxy(recipient: Identity, stream: ConnectionId) -> (driver: Driver)
        ensures
            driver@ == (DriverView {
                transport: TransportView {
                    peer: recipient@,
                    stream: stream@,
                    last_out: 0,
                    last_in: 0,
                    unacked: Some(opening(recipient@, stream@)),
                },
                phase: PhaseView::Waiting,
            }),
    {
        let init_pkg = Packet::establish(recipient, stream);
        Driver {
            transport: Transport::new(recipient, stream, Some(init_pkg)),
            phase: Phase::Waiting,
        }
    }

    /// The endpoint of a hidden service, for the connection `stream` that `sender` has opened.
    pub fn of_service(sender: Identity, stream: ConnectionId) -> (driver: Driver)
        ensures
            driver@ == (DriverView {
                transport: TransportView {
                    peer: sender@,
                    stream: stream@,
                    last_out: 0,
                    last_in: 0,
                    unacked: None,
                },
                phase: PhaseView::Waiting,
            }),
    {
        Driver { transport: Transport::new(sender, stream, None), phase: Phase::Waiting }
    }

    /// Whether the endpoint may read from its socket: every packet it sent is confirmed.
    pub fn can_read(&self) -> (ready: bool)
        ensures
            ready == (self@.transport.unacked is None),
    {
        self.transport.can_read()
    }

    /// Whether `payload` is one that the endpoint waits for. It ignores every other.
    pub fn expects(&self, payload: &Payload) -> (expected: bool)
        ensures
            expected == self@.transport.expects(payload@),
    {
        self.transport.expects(payload)
    }

    /// Whether [`Driver::advance`] can handle `event` next.
    pub fn can_handle(&self, event: &DriverEvent) -> (ready: bool)
        ensures
            ready == self@.accepts(event@),
    {
        match (event, &self.phase) {
            (DriverEvent::Happened(event), Phase::Waiting) => self.transport.can_handle(event),
            (DriverEvent::ReadFailed(_), Phase::Waiting) => self.transport.can_read(),
            (DriverEvent::Written(_), Phase::Writing(_)) => true,
            (DriverEvent::Sent(_), Phase::Sending(_)) => true,
            _ => false,
        }
    }

    /// Hands out the first of `steps`.
    fn hand_out(&mut self, steps: Vec<TransportStep>) -> (step: Option<TransportStep>)
        ensures
            final(self)@ == (DriverView {
                phase: next_of(steps_view(steps@)).0,
                ..old(self)@
            }),
            yields(Ok(step), next_of(steps_view(steps@)).1),
    {
        let mut left = steps;
        if left.len() == 0 {
            self.phase = Phase::Waiting;
            return None;
        }
        let step = left.remove(0);
        assert(steps_view(left@) =~= steps_view(steps@).drop_first());
        assert(steps_view(steps@)[0] == step@);
        self.phase = match &step {
            TransportStep::Write(_) => Phase::Writing(left),
            TransportStep::Send(_) => Phase::Sending(left),
        };
        Some(step)
    }

    /// Advances the endpoint by one event and says which step to take, if any, before the next
    /// one. An error ends the endpoint.
    pub fn advance(&mut self, event: DriverEvent) -> (result: Result<
        Option<TransportStep>,
        SocksError,
    >)
        requires
            old(self)@.accepts(event@),
        ensures
            final(self)@ == old(self)@.after(event@),
            yields(result, old(self)@.outcome(event@)),
    {
        let mut phase = Phase::Ended;
        std::mem::swap(&mut self.phase, &mut phase);
        match event {
            DriverEvent::Happened(event) => {
                let action = reliable_transport(&mut self.transport, event);
                Ok(self.hand_out(action.steps()))
            },
            DriverEvent::ReadFailed(error) => Err(SocksError::from(error)),
            DriverEvent::Written(Err(error)) => Err(SocksError::from(error)),
            DriverEvent::Sent(Err(error)) => Err(SocksError::from(error)),
            DriverEvent::Written(Ok(_)) | DriverEvent::Sent(Ok(_)) => match phase {
                Phase::Writing(left) | Phase::Sending(left) => Ok(self.hand_out(left)),
                _ => Ok(None),
            },
        }
    }
}

/// Everything that happens to one driver, from its first event on.
#[verifier::ext_equal]
pub struct Drive {
    pub start: TransportView,
    pub events: Seq<DriverEventView>,
}

impl Drive {
    /// The driver after the first `n` events.
    pub open spec fn state(self, n: nat) -> DriverView
        decreases n,
    {
        if n == 0 {
            DriverView { transport: self.start, phase: PhaseView::Waiting }
        } else {
            self.state((n - 1) as nat).after(self.events[n - 1])
        }
    }

    /// What the event number `i`, counted from zero, leads to.
    pub open spec fn outcome(self, i: int) -> Outcome {
        self.state(i as nat).outcome(self.events[i])
    }

    /// The steps that were handed out, in order.
    pub open spec fn taken(self, n: nat) -> Seq<StepView>
        decreases n,
    {
        if n == 0 {
            Seq::empty()
        } else {
            let before = self.taken((n - 1) as nat);
            match self.outcome(n - 1) {
                Outcome::Step(step) => before.push(step),
                _ => before,
            }
        }
    }

    /// What happened to the endpoint, in order.
    pub open spec fn happened(self, n: nat) -> Seq<EventView>
        decreases n,
    {
        if n == 0 {
            Seq::empty()
        } else {
            let before = self.happened((n - 1) as nat);
            match self.events[n - 1] {
                DriverEventView::Happened(event) => before.push(event),
                _ => before,
            }
        }
    }

    /// The course of the endpoint.
    pub open spec fn course(self, n: nat) -> Course {
        Course { start: self.start, events: self.happened(n) }
    }

    /// Whether the event number `i` comes while the driver can handle it.
    pub open spec fn handles(self, i: int) -> bool {
        self.state(i as nat).accepts(self.events[i])
    }

    /// A drive of an endpoint from its first event on, in which each event comes while the driver
    /// can handle it.
    pub open spec fn valid(self) -> bool {
        &&& self.start.last_out == 0
        &&& self.start.last_in == 0
        &&& forall|i: int| 0 <= i < self.events.len() ==> #[trigger] self.handles(i)
    }
}

/// The first `n` events alone decide about the state and the steps after them.
proof fn later_events_change_nothing(shorter: Course, longer: Course, n: nat)
    requires
        shorter.start == longer.start,
        n <= shorter.events.len(),
        shorter.events.is_prefix_of(longer.events),
    ensures
        shorter.state(n) == longer.state(n),
        shorter.steps(n) == longer.steps(n),
    decreases n,
{
    if n > 0 {
        later_events_change_nothing(shorter, longer, (n - 1) as nat);
        assert(shorter.events[n - 1] == longer.events[n - 1]);
    }
}

/// One more event adds its steps.
proof fn one_more_event(course: Course, event: EventView)
    requires
        course.valid(),
        course.state(course.events.len()).accepts(event),
    ensures
        ({
            let n = course.events.len();
            let more = Course { events: course.events.push(event), ..course };
            &&& more.valid()
            &&& more.state((n + 1) as nat) == course.state(n).after(event)
            &&& more.steps((n + 1) as nat) == course.steps(n) + course.state(n).reaction(
                event,
            ).steps()
        }),
{
    let n = course.events.len();
    let more = Course { events: course.events.push(event), ..course };
    assert(course.events =~= more.events.subrange(0, n as int));
    later_events_change_nothing(course, more, n);
    assert forall|i: int| 0 <= i < more.events.len() implies more.state(i as nat).accepts(
        #[trigger] more.events[i],
    ) by {
        later_events_change_nothing(course, more, i as nat);
        if i < n {
            assert(course.state(i as nat).accepts(course.events[i]));
        }
    }
}

proof fn drives_follow_courses(drive: Drive, n: nat)
    requires
        drive.valid(),
        n <= drive.events.len(),
    ensures
        drive.course(n).valid(),
        drive.state(n).transport == drive.course(n).state(drive.happened(n).len()),
        drive.state(n).phase !is Ended ==> drive.taken(n) + drive.state(n).phase.left()
            == drive.course(n).steps(drive.happened(n).len()),
        drive.taken(n).is_prefix_of(drive.course(n).steps(drive.happened(n).len())),
    decreases n,
{
    let steps = drive.course(n).steps(drive.happened(n).len());
    if n == 0 {
        assert(drive.taken(0) + Seq::<StepView>::empty() =~= Seq::<StepView>::empty());
    } else {
        let m = (n - 1) as nat;
        drives_follow_courses(drive, m);
        assert(drive.handles(m as int));
        let driver = drive.state(m);
        let taken = drive.taken(m);
        let before = drive.course(m).steps(drive.happened(m).len());
        let pending = match drive.events[m as int] {
            DriverEventView::Happened(event) => {
                one_more_event(drive.course(m), event);
                assert(taken =~= before);
                driver.transport.reaction(event).steps()
            },
            _ => driver.phase.left(),
        };
        assert(steps == taken + pending);
        if drive.state(n).phase !is Ended {
            assert(drive.taken(n) + drive.state(n).phase.left() =~= taken + pending);
        }
        assert(drive.taken(n) =~= steps.subrange(0, drive.taken(n).len() as int));
    }
}

/// A driver takes the steps of its endpoint in order, and all of them before it waits for the
/// next event. Whatever fails, it has taken the first ones of them and no others.
pub proof fn steps_are_taken_in_order(drive: Drive, n: nat)
    requires
        drive.valid(),
        n <= drive.events.len(),
    ensures
        drive.course(n).valid(),
        drive.taken(n).is_prefix_of(drive.course(n).steps(drive.happened(n).len())),
        drive.state(n).phase is Waiting ==> drive.taken(n) == drive.course(n).steps(
            drive.happened(n).len(),
        ),
{
    drives_follow_courses(drive, n);
    if drive.state(n).phase is Waiting {
        assert(drive.taken(n) + Seq::<StepView>::empty() =~= drive.taken(n));
    }
}

/// The first failure ends the endpoint, with the error of the socket if that failed, and for a
/// dropped connection if the channel to the mixnet is closed. Nothing is read, written or sent
/// after it.
pub proof fn failures_end_the_endpoint(drive: Drive, i: int)
    requires
        drive.valid(),
        0 <= i < drive.events.len(),
    ensures
        drive.events[i] matches DriverEventView::ReadFailed(error) ==> drive.outcome(i)
            == Outcome::Broken(error),
        drive.events[i] matches DriverEventView::Written(Err(error)) ==> drive.outcome(i)
            == Outcome::Broken(error),
        drive.events[i] == (DriverEventView::Sent { taken: false }) ==> drive.outcome(i)
            == Outcome::Dropped,
        drive.outcome(i) is Broken || drive.outcome(i) is Dropped ==> drive.events.len() == i + 1
            && drive.taken((i + 1) as nat) == drive.taken(i as nat),
{
    if drive.outcome(i) is Broken || drive.outcome(i) is Dropped {
        assert(drive.state((i + 1) as nat).phase is Ended);
        if drive.events.len() > i + 1 {
            assert(drive.handles(i + 1));
        }
    }
}

/// An endpoint ends for no other reason.
pub proof fn endpoints_end_by_failures_alone(drive: Drive, i: int)
    requires
        drive.valid(),
        0 <= i < drive.events.len(),
    ensures
        drive.outcome(i) is Broken <==> drive.events[i] is ReadFailed || (
        drive.events[i] matches DriverEventView::Written(result) && result is Err),
        drive.outcome(i) is Dropped <==> drive.events[i] == (DriverEventView::Sent {
            taken: false,
        }),
{
}

/// A result that yields an outcome is that very step or that very error, and says nothing else.
pub proof fn results_are_exact(result: Result<Option<TransportStep>, SocksError>, outcome: Outcome)
    requires
        yields(result, outcome),
    ensures
        match outcome {
            Outcome::Step(next) => result matches Ok(Some(step)) && step@ == next,
            Outcome::Wait => result matches Ok(None),
            Outcome::Broken(failure) => result matches Err(SocksError::IoError(error)) && error
                == failure,
            Outcome::Dropped => result matches Err(SocksError::ConnectionDropped),
        },
{
}

/// A driver that waits takes whatever its endpoint takes, and hands it on. One that was given a
/// step takes the report on it, be it a success or a failure.
pub proof fn drivers_go_on(
    driver: DriverView,
    event: DriverEventView,
    next: EventView,
    result: Result<(), std::io::Error>,
    taken: bool,
)
    requires
        driver.accepts(event),
    ensures
        driver.phase is Waiting ==> (driver.accepts(DriverEventView::Happened(next))
            <==> driver.transport.accepts(next)),
        event matches DriverEventView::Happened(happened) ==> driver.after(event).transport
            == driver.transport.after(happened),
        event !is Happened ==> driver.after(event).transport == driver.transport,
        match driver.outcome(event) {
            Outcome::Step(StepView::Write(_)) => driver.after(event).accepts(
                DriverEventView::Written(result),
            ),
            Outcome::Step(StepView::Send(_)) => driver.after(event).accepts(
                DriverEventView::Sent { taken },
            ),
            Outcome::Wait => driver.after(event).phase is Waiting,
            _ => driver.after(event).phase is Ended,
        },
{
}

/// What happens to an endpoint leads to its first step at once, and to nothing only where the
/// endpoint has nothing to do about it.
pub proof fn endpoints_react_at_once(driver: DriverView, happened: EventView)
    requires
        driver.accepts(DriverEventView::Happened(happened)),
    ensures
        ({
            let action = driver.transport.reaction(happened);
            driver.outcome(DriverEventView::Happened(happened)) == match (
                action.write,
                action.send,
            ) {
                (Some(bytes), _) => Outcome::Step(StepView::Write(bytes)),
                (None, Some(packet)) => Outcome::Step(StepView::Send(packet)),
                (None, None) => Outcome::Wait,
            }
        }),
{
}

} // verus!
