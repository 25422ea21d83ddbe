//! What one endpoint of a connection guarantees, whatever happens to it.
//!
//! Nothing is presumed of the network or of the peer: any payload may come in at any time.

use vstd::prelude::*;

use crate::packet::{PacketView, PayloadView};
use crate::session::stream_bytes;
use crate::transport::{ActionView, EventView, StepView, TransportView, CHUNK_LEN};

verus! {

/// Everything that happens to one endpoint, from its first event on.
#[verifier::ext_equal]
pub struct Course {
    pub start: TransportView,
    pub events: Seq<EventView>,
}

/// What is written in the course of `steps`, in order.
pub open spec fn writes(steps: Seq<StepView>) -> Seq<Seq<u8>>
    decreases steps.len(),
{
    if steps.len() == 0 {
        Seq::empty()
    } else {
        let before = writes(steps.drop_last());
        match steps.last() {
            StepView::Write(bytes) => before.push(bytes),
            StepView::Send(_) => before,
        }
    }
}

/// What is sent in the course of `steps`, in order.
pub open spec fn sends(steps: Seq<StepView>) -> Seq<PacketView>
    decreases steps.len(),
{
    if steps.len() == 0 {
        Seq::empty()
    } else {
        let before = sends(steps.drop_last());
        match steps.last() {
            StepView::Write(_) => before,
            StepView::Send(packet) => before.push(packet),
        }
    }
}

/// Whether one of `packets` carries a chunk numbered `idx`.
pub open spec fn carries(packets: Seq<PacketView>, idx: nat) -> bool {
    exists|i: int|
        0 <= i < packets.len() && ((#[trigger] packets[i]).payload matches PayloadView::Data {
            idx: number,
            ..
        } && number == idx)
}

/// The chunks in `packets`, the first copy of each number alone, in the order of sending.
pub open spec fn first_copies(packets: Seq<PacketView>) -> Seq<PayloadView>
    decreases packets.len(),
{
    if packets.len() == 0 {
        Seq::empty()
    } else {
        let before = first_copies(packets.drop_last());
        match packets.last().payload {
            PayloadView::Data { idx, .. } if !carries(packets.drop_last(), idx) => before.push(
                packets.last().payload,
            ),
            _ => before,
        }
    }
}

/// `chunks`, numbered from one on.
pub open spec fn numbered(chunks: Seq<Seq<u8>>) -> Seq<PayloadView> {
    Seq::new(
        chunks.len(),
        |k: int| PayloadView::Data { idx: (k + 1) as nat, data: chunks[k] },
    )
}

/// The bytes of the chunks that `payloads` carry.
pub open spec fn chunk_data(payloads: Seq<PayloadView>) -> Seq<Seq<u8>> {
    payloads.map_values(|payload: PayloadView| payload->data)
}

impl Course {
    /// The endpoint after the first `n` events.
    pub open spec fn state(self, n: nat) -> TransportView
        decreases n,
    {
        if n == 0 {
            self.start
        } else {
            self.state((n - 1) as nat).after(self.events[n - 1])
        }
    }

    /// What the endpoint does about the event number `i`, counted from zero.
    pub open spec fn action(self, i: int) -> ActionView {
        self.state(i as nat).reaction(self.events[i])
    }

    /// Everything that the endpoint does about the first `n` events, in order.
    pub open spec fn steps(self, n: nat) -> Seq<StepView>
        decreases n,
    {
        if n == 0 {
            Seq::empty()
        } else {
            self.steps((n - 1) as nat) + self.action(n - 1).steps()
        }
    }

    /// The chunks that were written to the local socket.
    pub open spec fn written(self, n: nat) -> Seq<Seq<u8>> {
        writes(self.steps(n))
    }

    /// The packets that were sent.
    pub open spec fn sent(self, n: nat) -> Seq<PacketView> {
        sends(self.steps(n))
    }

    /// What each read of the local socket returned.
    pub open spec fn read(self, n: nat) -> Seq<Seq<u8>>
        decreases n,
    {
        if n == 0 {
            Seq::empty()
        } else {
            let before = self.read((n - 1) as nat);
            match self.events[n - 1] {
                EventView::Read(data) => before.push(data),
                _ => before,
            }
        }
    }

    /// A course from the first event of an endpoint on, in which each event comes while the
    /// endpoint can handle it.
    pub open spec fn valid(self) -> bool {
        &&& self.start.last_out == 0
        &&& self.start.last_in == 0
        &&& forall|i: int|
            0 <= i < self.events.len() ==> self.state(i as nat).accepts(#[trigger] self.events[i])
    }

    /// Whether event number `i` is the arrival of a chunk numbered `idx`.
    pub open spec fn brings_chunk(self, i: int, idx: int) -> bool {
        self.events[i] matches EventView::Received(PayloadView::Data { idx: number, .. })
            && number == idx
    }

    /// Whether event number `i` is the arrival of a confirmation of chunk `idx`.
    pub open spec fn confirms(self, i: int, idx: nat) -> bool {
        self.events[i] == EventView::Received(PayloadView::Ack { idx })
    }

    /// Whether the chunks that were written by the first `n` events are those that came with the
    /// events numbered in `at`: the first chunk is the first one that came with number one, and
    /// each further chunk is the first one with the next number that came after it.
    pub open spec fn takes_chunks_at(self, at: Seq<int>, n: nat) -> bool {
        &&& at.len() == self.written(n).len()
        &&& forall|k: int|
            0 <= k < at.len() ==> {
                &&& 0 <= #[trigger] at[k] < n
                &&& self.events[at[k]] == EventView::Received(
                    PayloadView::Data { idx: (k + 1) as nat, data: self.written(n)[k] },
                )
            }
        &&& forall|k: int, l: int| 0 <= k < l < at.len() ==> at[k] < at[l]
        &&& forall|k: int, i: int|
            0 <= k <= at.len() && 0 <= i < n && (k > 0 ==> at[k - 1] < i) && (k < at.len() ==> i
                < at[k]) ==> !#[trigger] self.brings_chunk(i, k + 1)
    }
}

/// The last event adds its write and its packet, if any.
proof fn last_event_counts(course: Course, n: nat)
    requires
        n > 0,
    ensures
        course.written(n) == match course.action(n - 1).write {
            Some(bytes) => course.written((n - 1) as nat).push(bytes),
            None => course.written((n - 1) as nat),
        },
        course.sent(n) == match course.action(n - 1).send {
            Some(packet) => course.sent((n - 1) as nat).push(packet),
            None => course.sent((n - 1) as nat),
        },
{
    let before = course.steps((n - 1) as nat);
    let action = course.action(n - 1);
    let all = course.steps(n);
    assert(all == before + action.steps());
    match (action.write, action.send) {
        (Some(bytes), Some(packet)) => {
            let wrote = before.push(StepView::Write(bytes));
            assert(all =~= wrote.push(StepView::Send(packet)));
            assert(all.drop_last() =~= wrote);
            assert(wrote.drop_last() =~= before);
            assert(writes(wrote) == writes(before).push(bytes));
            assert(sends(wrote) == sends(before));
        },
        (Some(bytes), None) => {
            assert(all =~= before.push(StepView::Write(bytes)));
            assert(all.drop_last() =~= before);
        },
        (None, Some(packet)) => {
            assert(all =~= before.push(StepView::Send(packet)));
            assert(all.drop_last() =~= before);
        },
        (None, None) => {
            assert(all =~= before);
        },
    }
}

/// The counters of an endpoint count what was read and what was written.
proof fn counters_count(course: Course, n: nat)
    requires
        course.valid(),
        n <= course.events.len(),
    ensures
        course.state(n).last_out == course.read(n).len(),
        course.state(n).last_in == course.written(n).len(),
        course.state(n).peer == course.start.peer,
        course.state(n).stream == course.start.stream,
    decreases n,
{
    if n > 0 {
        counters_count(course, (n - 1) as nat);
        last_event_counts(course, n);
    }
}

/// What an endpoint writes to its socket is the chunks that it accepted, once each and in order:
/// the first chunk numbered one that came in, then the first one numbered two that came in after
/// it, and so on.
pub proof fn chunks_are_written_in_order(course: Course, n: nat)
    requires
        course.valid(),
        n <= course.events.len(),
    ensures
        exists|at: Seq<int>| course.takes_chunks_at(at, n),
    decreases n,
{
    if n == 0 {
        assert(course.takes_chunks_at(Seq::empty(), 0));
    } else {
        let m = (n - 1) as nat;
        chunks_are_written_in_order(course, m);
        counters_count(course, m);
        last_event_counts(course, n);
        let at = choose|at: Seq<int>| course.takes_chunks_at(at, m);
        if course.action(m as int).write is Some {
            assert(course.takes_chunks_at(at.push(m as int), n));
        } else {
            assert(!course.brings_chunk(m as int, at.len() as int + 1));
            assert(course.takes_chunks_at(at, n));
        }
    }
}

/// From a read on, an endpoint holds its chunk as not confirmed until the confirmation of that
/// very chunk comes in.
proof fn chunks_stay_until_confirmed(course: Course, i: int, n: nat)
    requires
        course.valid(),
        0 <= i < n <= course.events.len(),
        course.events[i] is Read,
        forall|k: int|
            i < k < n ==> !#[trigger] course.confirms(k, course.read((i + 1) as nat).len()),
    ensures
        course.state(n).unacked is Some,
        course.read(n) == course.read((i + 1) as nat),
    decreases n,
{
    if n > i + 1 {
        let m = (n - 1) as nat;
        chunks_stay_until_confirmed(course, i, m);
        counters_count(course, m);
        assert(course.state(m).accepts(course.events[m as int]));
        assert(!course.confirms(m as int, course.read((i + 1) as nat).len()));
    }
}

/// Between two reads of the local socket the confirmation of the chunk read first comes in: an
/// endpoint reads a new chunk only once the last one is confirmed.
pub proof fn reads_wait_for_confirmations(course: Course, i: int, j: int)
    requires
        course.valid(),
        0 <= i < j < course.events.len(),
        course.events[i] is Read,
        course.events[j] is Read,
    ensures
        exists|k: int|
            i < k < j && #[trigger] course.confirms(k, course.read((i + 1) as nat).len()),
{
    if forall|k: int|
        i < k < j ==> !#[trigger] course.confirms(k, course.read((i + 1) as nat).len()) {
        chunks_stay_until_confirmed(course, i, j as nat);
        assert(course.state(j as nat).accepts(course.events[j]));
    }
}

proof fn initial_packet_stays_until_confirmed(course: Course, n: nat)
    requires
        course.valid(),
        course.start.unacked is Some,
        n <= course.events.len(),
        forall|k: int| 0 <= k < n ==> !#[trigger] course.confirms(k, 0),
    ensures
        course.state(n).unacked == course.start.unacked,
        course.state(n).last_out == 0,
    decreases n,
{
    if n > 0 {
        let m = (n - 1) as nat;
        initial_packet_stays_until_confirmed(course, m);
        assert(course.state(m).accepts(course.events[m as int]));
        assert(!course.confirms(m as int, 0));
    }
}

/// An endpoint that starts with a packet reads nothing before chunk zero, which stands for that
/// packet, is confirmed.
pub proof fn reads_wait_for_the_opening(course: Course, j: int)
    requires
        course.valid(),
        course.start.unacked is Some,
        0 <= j < course.events.len(),
        course.events[j] is Read,
    ensures
        exists|k: int| 0 <= k < j && #[trigger] course.confirms(k, 0),
{
    if forall|k: int| 0 <= k < j ==> !#[trigger] course.confirms(k, 0) {
        initial_packet_stays_until_confirmed(course, j as nat);
        assert(course.state(j as nat).accepts(course.events[j]));
    }
}

/// Whether every chunk in `packets` is numbered after its place in `chunks`, and each of `chunks`
/// is among them.
spec fn carry_all(packets: Seq<PacketView>, chunks: Seq<Seq<u8>>) -> bool {
    &&& forall|i: int|
        0 <= i < packets.len() ==> ((#[trigger] packets[i]).payload matches PayloadView::Data {
            idx,
            data,
        } ==> 1 <= idx <= chunks.len() && data == chunks[idx - 1])
    &&& forall|idx: nat| 1 <= idx <= chunks.len() ==> #[trigger] carries(packets, idx)
}

proof fn carries_on(packets: Seq<PacketView>, packet: PacketView)
    ensures
        forall|idx: nat| #[trigger]
            carries(packets.push(packet), idx) <==> carries(packets, idx) || (
            packet.payload matches PayloadView::Data { idx: number, .. } && number == idx),
        packets.push(packet).drop_last() == packets,
{
    let more = packets.push(packet);
    assert(more.drop_last() =~= packets);
    assert forall|idx: nat| #[trigger] carries(more, idx) <==> carries(packets, idx) || (
    packet.payload matches PayloadView::Data { idx: number, .. } && number == idx) by {
        if carries(packets, idx) {
            let i = choose|i: int|
                0 <= i < packets.len() && ((
                #[trigger] packets[i]).payload matches PayloadView::Data { idx: number, .. }
                    && number == idx);
            assert(more[i] == packets[i]);
        }
        assert(more[packets.len() as int] == packet);
        if carries(more, idx) {
            let i = choose|i: int|
                0 <= i < more.len() && ((#[trigger] more[i]).payload matches PayloadView::Data {
                    idx: number,
                    ..
                } && number == idx);
            if i < packets.len() {
                assert(packets[i] == more[i]);
            }
        }
    }
}

proof fn chunks_are_sent_as_read(course: Course, n: nat)
    requires
        course.valid(),
        course.start.unacked matches Some(packet) ==> packet.payload !is Data,
        n <= course.events.len(),
    ensures
        carry_all(course.sent(n), course.read(n)),
        first_copies(course.sent(n)) == numbered(course.read(n)),
        course.state(n).unacked matches Some(packet) ==> (
        packet.payload matches PayloadView::Data { idx, data } ==> 1 <= idx <= course.read(n).len()
            && data == course.read(n)[idx - 1]),
    decreases n,
{
    if n == 0 {
        assert(numbered(course.read(0)) =~= Seq::<PayloadView>::empty());
    } else {
        let m = (n - 1) as nat;
        chunks_are_sent_as_read(course, m);
        counters_count(course, m);
        last_event_counts(course, n);
        let sent = course.sent(m);
        let read = course.read(m);
        if let Some(packet) = course.action(m as int).send {
            carries_on(sent, packet);
            if let EventView::Read(data) = course.events[m as int] {
                let idx = (read.len() + 1) as nat;
                assert(packet.payload == PayloadView::Data { idx, data });
                if carries(sent, idx) {
                    let i = choose|i: int|
                        0 <= i < sent.len() && ((
                        #[trigger] sent[i]).payload matches PayloadView::Data { idx: number, .. }
                            && number == idx);
                    assert(false);
                }
                assert(numbered(course.read(n)) =~= numbered(read).push(packet.payload));
            } else {
                assert(course.read(n) == read);
            }
        } else {
            assert(course.sent(n) == sent);
            assert(course.read(n) == read);
        }
    }
}

/// The chunks that an endpoint sends, the first copy of each number alone, are numbered one, two,
/// three and so on in the order of sending, one for each read of the local socket, also for a
/// read of no bytes. Each carries exactly what that read returned, so one after another they
/// carry all the bytes read. Every further copy is the same.
pub proof fn chunks_are_numbered_from_one(course: Course, n: nat)
    requires
        course.valid(),
        course.start.unacked matches Some(packet) ==> packet.payload !is Data,
        n <= course.events.len(),
    ensures
        first_copies(course.sent(n)) == numbered(course.read(n)),
        stream_bytes(chunk_data(first_copies(course.sent(n)))) == stream_bytes(course.read(n)),
        forall|i: int|
            0 <= i < course.sent(n).len() ==> ((
            #[trigger] course.sent(n)[i]).payload matches PayloadView::Data { idx, data } ==> 1
                <= idx <= course.read(n).len() && data == course.read(n)[idx - 1]),
{
    chunks_are_sent_as_read(course, n);
    assert(chunk_data(numbered(course.read(n))) =~= course.read(n));
}

proof fn reads_fit(course: Course, n: nat)
    requires
        n <= course.events.len(),
        forall|i: int| 0 <= i < n ==> (#[trigger] course.events[i]).fits_chunk(),
    ensures
        forall|k: int|
            0 <= k < course.read(n).len() ==> (#[trigger] course.read(n)[k]).len() <= CHUNK_LEN,
    decreases n,
{
    if n > 0 {
        let before = course.read((n - 1) as nat);
        reads_fit(course, (n - 1) as nat);
        assert(course.events[n - 1].fits_chunk());
        assert forall|k: int| 0 <= k < course.read(n).len() implies (
        #[trigger] course.read(n)[k]).len() <= CHUNK_LEN by {
            if k < before.len() {
                assert(course.read(n)[k] == before[k]);
            }
        }
    }
}

/// Where each read returns no more than a chunk holds, no packet carries more.
pub proof fn chunks_are_short(course: Course, n: nat)
    requires
        course.valid(),
        course.start.unacked matches Some(packet) ==> packet.payload !is Data,
        n <= course.events.len(),
        forall|i: int| 0 <= i < n ==> (#[trigger] course.events[i]).fits_chunk(),
    ensures
        forall|i: int|
            0 <= i < course.sent(n).len() ==> ((
            #[trigger] course.sent(n)[i]).payload matches PayloadView::Data { data, .. }
                ==> data.len() <= CHUNK_LEN),
{
    chunks_are_sent_as_read(course, n);
    reads_fit(course, n);
}

/// Every packet of an endpoint is the one that it started with, or goes to its peer, belongs to
/// its connection and carries a chunk or a confirmation.
pub proof fn packets_carry_chunks_or_confirmations(course: Course, n: nat)
    requires
        course.valid(),
        n <= course.events.len(),
    ensures
        forall|i: int|
            0 <= i < course.sent(n).len() ==> {
                let packet = #[trigger] course.sent(n)[i];
                ||| course.start.unacked == Some(packet)
                ||| {
                    &&& packet.recipient == course.start.peer
                    &&& packet.stream == course.start.stream
                    &&& packet.payload is Data || packet.payload is Ack
                }
            },
        course.state(n).unacked matches Some(packet) ==> {
            ||| course.start.unacked == Some(packet)
            ||| {
                &&& packet.recipient == course.start.peer
                &&& packet.stream == course.start.stream
                &&& packet.payload is Data
            }
        },
    decreases n,
{
    if n > 0 {
        packets_carry_chunks_or_confirmations(course, (n - 1) as nat);
        counters_count(course, (n - 1) as nat);
        last_event_counts(course, n);
    }
}

/// A chunk is confirmed only after it has been written: before each confirmation of a chunk, that
/// many chunks have been written.
pub proof fn confirmations_follow_writes(course: Course, n: nat)
    requires
        course.valid(),
        course.start.unacked matches Some(packet) ==> packet.payload !is Ack,
        n <= course.events.len(),
    ensures
        forall|i: int|
            0 <= i < course.steps(n).len() ==> (
            #[trigger] course.steps(n)[i] matches StepView::Send(packet) ==> (
            packet.payload matches PayloadView::Ack { idx } ==> idx <= writes(
                course.steps(n).take(i),
            ).len())),
    decreases n,
{
    if n > 0 {
        let m = (n - 1) as nat;
        confirmations_follow_writes(course, m);
        packets_carry_chunks_or_confirmations(course, m);
        counters_count(course, m);
        last_event_counts(course, n);
        let before = course.steps(m);
        let all = course.steps(n);
        let action = course.action(m as int);
        assert forall|i: int| 0 <= i < all.len() implies (
        #[trigger] all[i] matches StepView::Send(packet) ==> (
        packet.payload matches PayloadView::Ack { idx } ==> idx <= writes(all.take(i)).len())) by {
            if i < before.len() {
                assert(all.take(i) =~= before.take(i));
                assert(all[i] == before[i]);
            } else if all[i] is Send {
                assert(Some(all[i]->Send_0) == action.send);
                match action.write {
                    Some(bytes) => {
                        assert(all.take(i) =~= before.push(StepView::Write(bytes)));
                        assert(all.take(i).drop_last() =~= before);
                    },
                    None => {
                        assert(all.take(i) =~= before);
                    },
                }
            }
        }
    }
}

/// The number of confirmations in `packets`.
pub open spec fn confirmations(packets: Seq<PacketView>) -> nat
    decreases packets.len(),
{
    if packets.len() == 0 {
        0
    } else {
        confirmations(packets.drop_last()) + if packets.last().payload is Ack {
            1nat
        } else {
            0
        }
    }
}

/// The number of chunks and openings that come in with `events`.
pub open spec fn arrivals(events: Seq<EventView>) -> nat
    decreases events.len(),
{
    if events.len() == 0 {
        0
    } else {
        arrivals(events.drop_last()) + match events.last() {
            EventView::Received(PayloadView::Ack { .. }) => 0nat,
            EventView::Received(_) => 1,
            _ => 0,
        }
    }
}

/// An endpoint sends no more confirmations than chunks and openings come in: each confirmation is
/// caused by one of them, and none by another confirmation.
pub proof fn confirmations_are_caused_by_arrivals(course: Course, n: nat)
    requires
        course.valid(),
        course.start.unacked matches Some(packet) ==> packet.payload !is Ack,
        n <= course.events.len(),
    ensures
        confirmations(course.sent(n)) <= arrivals(course.events.take(n as int)),
    decreases n,
{
    if n > 0 {
        let m = (n - 1) as nat;
        confirmations_are_caused_by_arrivals(course, m);
        packets_carry_chunks_or_confirmations(course, m);
        last_event_counts(course, n);
        let events = course.events.take(n as int);
        assert(events.drop_last() =~= course.events.take(m as int));
        assert(events.last() == course.events[m as int]);
        if let Some(packet) = course.action(m as int).send {
            assert(course.sent(n).drop_last() =~= course.sent(m));
        }
    }
}

/// Whoever only gets confirmations says nothing: a confirmation that comes in leads to no step at
/// all, so two endpoints that owe each other nothing fall silent.
pub proof fn confirmations_lead_to_silence(course: Course, i: int)
    requires
        course.valid(),
        0 <= i < course.events.len(),
        course.events[i] matches EventView::Received(payload) && payload is Ack,
    ensures
        course.steps((i + 1) as nat) == course.steps(i as nat),
        course.sent((i + 1) as nat) == course.sent(i as nat),
        course.written((i + 1) as nat) == course.written(i as nat),
{
    assert(course.steps((i + 1) as nat) =~= course.steps(i as nat));
}

} // verus!
