//! The bounded buffer of control events.
use std::collections::VecDeque;

use vstd::prelude::*;
use vstd::string::*;

use crate::clock::now_rfc3339;
use crate::control_contract::{
    copy_resource, resource_view, ControlResourceKind, ControlResourceRef,
};
use crate::json::{copy_json, Json, JsonView};

verus! {

/// What a terminal runtime reports. The value is the report as it goes into the event.
#[derive(Debug)]
pub enum TerminalRuntimeEvent {
    Status { runtime_id: String, value: Json },
    Output { runtime_id: String, value: Json },
    Exit { runtime_id: String, value: Json },
}

/// How many events the buffer keeps.
pub const EVENT_CAPACITY: usize = 2048;

/// How many events one read returns at most.
pub const READ_LIMIT: usize = 1000;

/// Something that happened, with its place in the order of all events.
#[derive(Debug)]
pub struct ControlEvent {
    pub sequence: u64,
    pub timestamp: String,
    pub event_type: String,
    pub resource: Option<ControlResourceRef>,
    pub payload: Json,
}

/// The answer to a read.
#[derive(Debug)]
pub struct ControlEventReadResult {
    pub requested_sequence: u64,
    pub earliest_sequence: u64,
    pub next_sequence: u64,
    pub truncated: bool,
    pub events: Vec<ControlEvent>,
}

/// What an event holds.
pub ghost struct EventView {
    pub sequence: u64,
    pub timestamp: Seq<char>,
    pub event_type: Seq<char>,
    pub resource: Option<(ControlResourceKind, Seq<char>)>,
    pub payload: JsonView,
}

/// What an answer to a read holds.
pub ghost struct EventReadView {
    pub requested: u64,
    pub earliest: u64,
    pub next: u64,
    pub truncated: bool,
    pub events: Seq<EventView>,
}

/// The next sequence number and the kept events, oldest first.
pub ghost struct EventBufferView {
    pub next: u64,
    pub events: Seq<EventView>,
}

pub open spec fn event_view(e: ControlEvent) -> EventView {
    EventView {
        sequence: e.sequence,
        timestamp: e.timestamp@,
        event_type: e.event_type@,
        resource: resource_view(e.resource),
        payload: e.payload.view(),
    }
}

pub open spec fn event_views(events: Seq<ControlEvent>) -> Seq<EventView> {
    events.map_values(|e: ControlEvent| event_view(e))
}

pub open spec fn read_view(r: ControlEventReadResult) -> EventReadView {
    EventReadView {
        requested: r.requested_sequence,
        earliest: r.earliest_sequence,
        next: r.next_sequence,
        truncated: r.truncated,
        events: event_views(r.events@),
    }
}

/// One more, up to the largest number.
pub open spec fn successor(n: u64) -> u64 {
    if n == u64::MAX {
        n
    } else {
        (n + 1) as u64
    }
}

/// The events that do not come before `start`.
pub open spec fn not_before(events: Seq<EventView>, start: u64) -> Seq<EventView>
    decreases events.len(),
{
    if events.len() == 0 {
        events
    } else {
        let rest = not_before(events.drop_last(), start);
        if events.last().sequence >= start {
            rest.push(events.last())
        } else {
            rest
        }
    }
}

/// At most the first `n`.
pub open spec fn at_most(events: Seq<EventView>, n: int) -> Seq<EventView> {
    if events.len() <= n {
        events
    } else {
        events.take(n)
    }
}

impl EventBufferView {
    /// The bound holds; the numbers never fall and stay below the next one; and until the numbers
    /// are used up the kept events carry consecutive numbers that end just before the next one.
    pub open spec fn wf(self) -> bool {
        &&& self.events.len() <= EVENT_CAPACITY
        &&& forall|i: int, j: int|
            0 <= i <= j < self.events.len() ==> (#[trigger] self.events[i]).sequence <= (
            #[trigger] self.events[j]).sequence
        &&& forall|i: int|
            0 <= i < self.events.len() ==> (#[trigger] self.events[i]).sequence <= self.next
        &&& self.next < u64::MAX ==> forall|i: int|
            0 <= i < self.events.len() ==> (#[trigger] self.events[i]).sequence == self.next - (
            self.events.len() - i)
    }

    /// The buffer with one more event, which carries the next number; the oldest event leaves
    /// where the buffer was full.
    pub open spec fn recorded(
        self,
        timestamp: Seq<char>,
        event_type: Seq<char>,
        resource: Option<(ControlResourceKind, Seq<char>)>,
        payload: JsonView,
    ) -> EventBufferView {
        let all = self.events.push(
            EventView { sequence: self.next, timestamp, event_type, resource, payload },
        );
        EventBufferView {
            next: successor(self.next),
            events: if all.len() > EVENT_CAPACITY {
                all.skip(1)
            } else {
                all
            },
        }
    }

    /// The number of the oldest kept event, or the next one where none is kept.
    pub open spec fn earliest(self) -> u64 {
        if self.events.len() > 0 {
            self.events[0].sequence
        } else {
            self.next
        }
    }

    /// The answer to a read.
    pub open spec fn read(self, from: u64, limit: nat) -> EventReadView {
        let earliest = self.earliest();
        let start = if from < earliest {
            earliest
        } else {
            from
        };
        let events = at_most(
            not_before(self.events, start),
            if limit < READ_LIMIT {
                limit as int
            } else {
                READ_LIMIT as int
            },
        );
        EventReadView {
            requested: from,
            earliest,
            next: if events.len() > 0 {
                successor(events.last().sequence)
            } else {
                start
            },
            truncated: from < earliest,
            events,
        }
    }
}

/// The runtime that reports.
pub open spec fn runtime_of(event: TerminalRuntimeEvent) -> Seq<char> {
    match event {
        TerminalRuntimeEvent::Status { runtime_id, .. } => runtime_id@,
        TerminalRuntimeEvent::Output { runtime_id, .. } => runtime_id@,
        TerminalRuntimeEvent::Exit { runtime_id, .. } => runtime_id@,
    }
}

/// The type of the event for a report.
pub open spec fn report_type(event: TerminalRuntimeEvent) -> Seq<char> {
    match event {
        TerminalRuntimeEvent::Status { .. } => "terminal.runtime.status"@,
        TerminalRuntimeEvent::Output { .. } => "terminal.runtime.output"@,
        TerminalRuntimeEvent::Exit { .. } => "terminal.runtime.exit"@,
    }
}

/// What the runtime reports.
pub open spec fn report_of(event: TerminalRuntimeEvent) -> JsonView {
    match event {
        TerminalRuntimeEvent::Status { value, .. } => value.view(),
        TerminalRuntimeEvent::Output { value, .. } => value.view(),
        TerminalRuntimeEvent::Exit { value, .. } => value.view(),
    }
}

/// The latest control events; older ones leave when the buffer is full.
pub struct ControlEventBuffer {
    next_sequence: u64,
    events: VecDeque<ControlEvent>,
}

impl View for ControlEventBuffer {
    type V = EventBufferView;

    closed spec fn view(&self) -> EventBufferView {
        EventBufferView { next: self.next_sequence, events: event_views(self.events@) }
    }
}

fn copy_event(e: &ControlEvent) -> (r: ControlEvent)
    ensures
        event_view(r) == event_view(*e),
{
    ControlEvent {
        sequence: e.sequence,
        timestamp: e.timestamp.clone(),
        event_type: e.event_type.clone(),
        resource: copy_resource(&e.resource),
        payload: copy_json(&e.payload),
    }
}

impl ControlEventBuffer {
    /// An empty buffer.
    pub fn new() -> (r: Self)
        ensures
            r@.wf(),
            r@.next == 0,
            r@.events.len() == 0,
    {
        ControlEventBuffer { next_sequence: 0, events: VecDeque::new() }
    }

    /// Adds an event that happened at the given moment.
    pub fn record_at(
        &mut self,
        timestamp: String,
        event_type: &str,
        resource: Option<ControlResourceRef>,
        payload: Json,
    )
        requires
            old(self)@.wf(),
        ensures
            final(self)@.wf(),
            final(self)@ == old(self)@.recorded(
                timestamp@,
                event_type@,
                resource_view(resource),
                payload.view(),
            ),
    {
        let ghost before = self@;
        let ghost held = self.events@;
        let sequence: u64 = self.next_sequence;
        if self.next_sequence < u64::MAX {
            self.next_sequence = self.next_sequence + 1;
        }
        let event = ControlEvent {
            sequence,
            timestamp,
            event_type: event_type.to_owned(),
            resource,
            payload,
        };
        let ghost added = event_view(event);
        self.events.push_back(event);
        assert(event_views(self.events@) =~= before.events.push(added));
        if self.events.len() > EVENT_CAPACITY {
            let ghost full = self.events@;
            let _ = self.events.pop_front();
            assert(self.events@ =~= full.skip(1));
            assert(event_views(self.events@) =~= before.events.push(added).skip(1));
        }
    }

    /// Adds an event that happens now.
    pub fn record_control_event(
        &mut self,
        event_type: &str,
        resource: Option<ControlResourceRef>,
        payload: Json,
    )
        requires
            old(self)@.wf(),
        ensures
            final(self)@.wf(),
            exists|timestamp: Seq<char>|
                final(self)@ == #[trigger] old(self)@.recorded(
                    timestamp,
                    event_type@,
                    resource_view(resource),
                    payload.view(),
                ),
    {
        let timestamp = now_rfc3339();
        self.record_at(timestamp, event_type, resource, payload);
    }

    /// Adds an event for what a terminal runtime reports.
    pub fn record_runtime_event(&mut self, event: TerminalRuntimeEvent)
        requires
            old(self)@.wf(),
        ensures
            final(self)@.wf(),
            exists|timestamp: Seq<char>|
                final(self)@ == #[trigger] old(self)@.recorded(
                    timestamp,
                    report_type(event),
                    Some((ControlResourceKind::TerminalRuntime, runtime_of(event))),
                    report_of(event),
                ),
    {
        let (event_type, id, value) = match event {
            TerminalRuntimeEvent::Status { runtime_id, value } => {
                ("terminal.runtime.status", runtime_id, value)
            },
            TerminalRuntimeEvent::Output { runtime_id, value } => {
                ("terminal.runtime.output", runtime_id, value)
            },
            TerminalRuntimeEvent::Exit { runtime_id, value } => {
                ("terminal.runtime.exit", runtime_id, value)
            },
        };
        let resource = Some(ControlResourceRef { kind: ControlResourceKind::TerminalRuntime, id });
        assert(event_type@ == report_type(event));
        assert(resource_view(resource) == Some(
            (ControlResourceKind::TerminalRuntime, runtime_of(event)),
        ));
        assert(value.view() == report_of(event));
        self.record_control_event(event_type, resource, value);
    }

    /// The kept events that do not come before `from_sequence`, at most `limit` and never more
    /// than `READ_LIMIT`.
    pub fn read(&self, from_sequence: u64, limit: usize) -> (r: ControlEventReadResult)
        ensures
            read_view(r) == self@.read(from_sequence, limit as nat),
    {
        let earliest_sequence: u64 = if self.events.len() > 0 {
            self.events[0].sequence
        } else {
            self.next_sequence
        };
        let start: u64 = if from_sequence < earliest_sequence {
            earliest_sequence
        } else {
            from_sequence
        };
        let bound: usize = if limit < READ_LIMIT {
            limit
        } else {
            READ_LIMIT
        };
        let mut events: Vec<ControlEvent> = Vec::new();
        let ghost all = self@.events;
        let mut i: usize = 0;
        while i < self.events.len()
            invariant
                i <= self.events@.len(),
                all == event_views(self.events@),
                event_views(events@) == at_most(not_before(all.take(i as int), start), bound as int),
            decreases self.events@.len() - i,
        {
            proof {
                assert(all.take(i + 1).drop_last() =~= all.take(i as int));
                assert(all.take(i + 1).last() == event_view(self.events@[i as int]));
            }
            if self.events[i].sequence >= start && events.len() < bound {
                let ghost before = events@;
                let copy = copy_event(&self.events[i]);
                events.push(copy);
                assert(event_views(events@) =~= event_views(before).push(event_view(copy)));
            }
            assert(event_views(events@) =~= at_most(
                not_before(all.take(i + 1), start),
                bound as int,
            ));
            i = i + 1;
        }
        assert(all.take(i as int) =~= all);
        let next_sequence: u64 = if events.len() > 0 {
            let last: u64 = events[events.len() - 1].sequence;
            assert(event_views(events@).last().sequence == last);
            if last < u64::MAX {
                last + 1
            } else {
                last
            }
        } else {
            start
        };
        ControlEventReadResult {
            requested_sequence: from_sequence,
            earliest_sequence,
            next_sequence,
            truncated: from_sequence < earliest_sequence,
            events,
        }
    }
}

impl Default for ControlEventBuffer {
    fn default() -> (r: Self)
        ensures
            r@.wf(),
            r@.next == 0,
            r@.events.len() == 0,
    {
        ControlEventBuffer::new()
    }
}

/// In a sorted list the events that do not come before `start` are those from some place on.
proof fn lemma_not_before_is_tail(events: Seq<EventView>, start: u64) -> (k: int)
    requires
        forall|i: int, j: int|
            0 <= i <= j < events.len() ==> (#[trigger] events[i]).sequence <= (
            #[trigger] events[j]).sequence,
    ensures
        0 <= k <= events.len(),
        not_before(events, start) == events.skip(k),
        forall|i: int| 0 <= i < k ==> (#[trigger] events[i]).sequence < start,
        forall|i: int| k <= i < events.len() ==> (#[trigger] events[i]).sequence >= start,
    decreases events.len(),
{
    if events.len() == 0 {
        assert(events.skip(0) =~= events);
        0
    } else {
        let rest = events.drop_last();
        let k = lemma_not_before_is_tail(rest, start);
        assert forall|i: int| 0 <= i < rest.len() implies #[trigger] events[i] == rest[i] by {}
        if events.last().sequence >= start {
            assert(events.skip(k) =~= rest.skip(k).push(events.last()));
            k
        } else {
            if k < rest.len() {
                assert(rest[k] == events[k]);
                assert(events[k].sequence <= events[events.len() - 1].sequence);
            }
            assert(rest.skip(k) =~= events.skip(events.len() as int));
            events.len() as int
        }
    }
}

/// The event that was recorded last can be read back under the number that was next.
pub proof fn law_recorded_event_is_read(
    buffer: EventBufferView,
    timestamp: Seq<char>,
    event_type: Seq<char>,
    resource: Option<(ControlResourceKind, Seq<char>)>,
    payload: JsonView,
    limit: nat,
)
    requires
        buffer.wf(),
        buffer.next < u64::MAX - 1,
        limit > 0,
    ensures
        buffer.recorded(timestamp, event_type, resource, payload).read(buffer.next, limit).events
            == seq![EventView { sequence: buffer.next, timestamp, event_type, resource, payload }],
{
    let after = buffer.recorded(timestamp, event_type, resource, payload);
    let k = lemma_not_before_is_tail(after.events, buffer.next);
    let n = after.events.len();
    assert(after.events[n - 1].sequence == buffer.next);
    if n >= 2 {
        assert(after.events[n - 2].sequence < buffer.next);
    }
    assert(k == n - 1);
    assert(after.events.skip(k) =~= seq![after.events[n - 1]]);
}

/// Reading on from the number that a read returned loses nothing: every kept event from the
/// requested number on is in the answer or has at least that number, and every event in the
/// answer has a smaller one.
pub proof fn law_reads_continue_without_gap(buffer: EventBufferView, from: u64, limit: nat)
    requires
        buffer.wf(),
        buffer.next < u64::MAX,
    ensures
        forall|i: int|
            #![trigger buffer.events[i]]
            0 <= i < buffer.events.len() && buffer.events[i].sequence >= from ==> buffer.read(
                from,
                limit,
            ).events.contains(buffer.events[i]) || buffer.events[i].sequence >= buffer.read(
                from,
                limit,
            ).next,
        forall|i: int|
            #![trigger buffer.read(from, limit).events[i]]
            0 <= i < buffer.read(from, limit).events.len() ==> from <= buffer.read(
                from,
                limit,
            ).events[i].sequence < buffer.read(from, limit).next,
{
    let r = buffer.read(from, limit);
    let start = if from < buffer.earliest() {
        buffer.earliest()
    } else {
        from
    };
    let k = lemma_not_before_is_tail(buffer.events, start);
    let tail = buffer.events.skip(k);
    assert(r.events.len() <= tail.len());
    assert forall|i: int| 0 <= i < r.events.len() implies #[trigger] r.events[i]
        == buffer.events[k + i] by {}
    assert forall|i: int|
        #![trigger buffer.events[i]]
        0 <= i < buffer.events.len() && buffer.events[i].sequence
            >= from implies r.events.contains(buffer.events[i]) || buffer.events[i].sequence
        >= r.next by {
        assert(buffer.events[0].sequence <= buffer.events[i].sequence);
        assert(i >= k);
        if i - k < r.events.len() {
            assert(r.events[i - k] == buffer.events[i]);
        } else if r.events.len() > 0 {
            assert(r.events.last() == buffer.events[k + r.events.len() - 1]);
        }
    }
    assert forall|i: int|
        #![trigger r.events[i]]
        0 <= i < r.events.len() implies from <= r.events[i].sequence < r.next by {
        assert(r.events.last() == buffer.events[k + r.events.len() - 1]);
        assert(buffer.events[k + i].sequence <= buffer.events[k + r.events.len() - 1].sequence);
    }
}

/// A reader that starts at the beginning learns that events are gone once more were recorded
/// than the buffer keeps.
pub proof fn law_overflow_is_reported(buffer: EventBufferView, limit: nat)
    requires
        buffer.wf(),
        EVENT_CAPACITY < buffer.next < u64::MAX,
    ensures
        buffer.read(0, limit).truncated,
{
}

/// News are told under the word for what happened, about the terminal that they come from, and with
/// what it reported.
pub proof fn law_news_are_told_under_their_word(runtime_id: String, value: Json)
    ensures
        report_type(TerminalRuntimeEvent::Status { runtime_id, value })
            == "terminal.runtime.status"@,
        report_type(TerminalRuntimeEvent::Output { runtime_id, value })
            == "terminal.runtime.output"@,
        report_type(TerminalRuntimeEvent::Exit { runtime_id, value }) == "terminal.runtime.exit"@,
        runtime_of(TerminalRuntimeEvent::Status { runtime_id, value }) == runtime_id@,
        runtime_of(TerminalRuntimeEvent::Output { runtime_id, value }) == runtime_id@,
        runtime_of(TerminalRuntimeEvent::Exit { runtime_id, value }) == runtime_id@,
        report_of(TerminalRuntimeEvent::Status { runtime_id, value }) == value.view(),
        report_of(TerminalRuntimeEvent::Output { runtime_id, value }) == value.view(),
        report_of(TerminalRuntimeEvent::Exit { runtime_id, value }) == value.view(),
{
}

/// A buffer keeps the last 2048 events: one more pushes out the oldest, and every event gets the next
/// number.
pub proof fn law_the_last_events_are_kept(
    buffer: EventBufferView,
    timestamp: Seq<char>,
    event_type: Seq<char>,
    resource: Option<(ControlResourceKind, Seq<char>)>,
    payload: JsonView,
)
    requires
        buffer.wf(),
    ensures
        ({
            let after = buffer.recorded(timestamp, event_type, resource, payload);
            let n = buffer.events.len() as int;
            &&& after.events.len() == (if n < 2048 {
                n + 1
            } else {
                2048
            })
            &&& after.events.last() == (EventView {
                sequence: buffer.next,
                timestamp,
                event_type,
                resource,
                payload,
            })
            &&& n < 2048 ==> after.events.take(n) == buffer.events
            &&& n == 2048 ==> after.events.take(2047) == buffer.events.skip(1)
            &&& buffer.next < u64::MAX ==> after.next == buffer.next + 1
        }),
{
    let after = buffer.recorded(timestamp, event_type, resource, payload);
    let n = buffer.events.len() as int;
    if n < 2048 {
        assert(after.events.take(n) =~= buffer.events);
    } else {
        assert(after.events.take(2047) =~= buffer.events.skip(1));
    }
}

/// A read gives no more than a thousand events, none from before the number that was asked for, and
/// tells where to read on.
pub proof fn law_reads_start_where_asked(buffer: EventBufferView, from: u64, limit: nat)
    requires
        buffer.wf(),
    ensures
        ({
            let read = buffer.read(from, limit);
            &&& read.requested == from
            &&& read.events.len() <= limit && read.events.len() <= 1000
            &&& forall|i: int|
                0 <= i < read.events.len() ==> (#[trigger] read.events[i]).sequence >= from
            &&& read.truncated <==> buffer.events.len() > 0 && from < buffer.events[0].sequence || (
            buffer.events.len() == 0 && from < buffer.next)
        }),
{
    let earliest = buffer.earliest();
    let start = if from < earliest {
        earliest
    } else {
        from
    };
    lemma_all_not_before(buffer.events, start);
}

proof fn lemma_all_not_before(events: Seq<EventView>, start: u64)
    ensures
        forall|i: int|
            0 <= i < not_before(events, start).len() ==> (#[trigger] not_before(
                events,
                start,
            )[i]).sequence >= start,
    decreases events.len(),
{
    if events.len() > 0 {
        lemma_all_not_before(events.drop_last(), start);
    }
}

/// A read gives as many events as were asked for and are there, up to a thousand.
pub proof fn law_reads_give_what_is_there(buffer: EventBufferView, from: u64, limit: nat)
    ensures
        ({
            let start = if from < buffer.earliest() {
                buffer.earliest()
            } else {
                from
            };
            let there = not_before(buffer.events, start);
            let read = buffer.read(from, limit).events;
            &&& there.len() <= limit && there.len() <= 1000 ==> read == there
            &&& limit <= 1000 && there.len() > limit ==> read == there.take(limit as int)
            &&& limit > 1000 && there.len() > 1000 ==> read == there.take(1000)
        }),
{
}

} // verus!
