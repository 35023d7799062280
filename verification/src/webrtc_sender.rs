//! The decisions of a viewer session's video forwarder: which access unit to
//! write to the track on each event, and how a burst of queued access units
//! is drained down to the newest.
use vstd::prelude::*;

use crate::h264::{copy_access_unit, EncodedAccessUnit};

verus! {

/// What the forwarder of one session waits on.
pub enum ForwarderEvent {
    /// The resend interval elapsed.
    Tick,
    /// The newest access unit that arrived from the pipeline.
    Received(EncodedAccessUnit),
    /// The receiver fell behind and the channel skipped access units.
    Lagged,
    /// The pipeline's channel closed.
    ChannelClosed,
    /// Writing to the track failed.
    WriteFailed,
}

/// What the forwarder does next.
pub enum ForwarderAction {
    /// Nothing: wait for the next event.
    Wait,
    /// Write this access unit to the track.
    Write(EncodedAccessUnit),
    /// End the session.
    Stop,
}

/// The state of one session's forwarder: the last access unit it wrote or
/// was handed at start.
pub struct VideoForwarder {
    pub latest_access_unit: Option<EncodedAccessUnit>,
}

/// The view of an optional access unit.
pub open spec fn unit_view(unit: Option<EncodedAccessUnit>) -> Option<(Seq<u8>, core::time::Duration)> {
    match unit {
        Some(u) => Some(u@),
        None => None,
    }
}

/// The latest access unit after an event: a received one replaces it.
pub open spec fn latest_after_event(
    latest: Option<(Seq<u8>, core::time::Duration)>,
    event: ForwarderEvent,
) -> Option<(Seq<u8>, core::time::Duration)> {
    match event {
        ForwarderEvent::Received(unit) => Some(unit@),
        _ => latest,
    }
}

/// The latest access unit after a run of events.
pub open spec fn latest_after_events(
    initial: Option<(Seq<u8>, core::time::Duration)>,
    events: Seq<ForwarderEvent>,
) -> Option<(Seq<u8>, core::time::Duration)>
    decreases events.len(),
{
    if events.len() == 0 {
        initial
    } else {
        latest_after_event(latest_after_events(initial, events.drop_last()), events.last())
    }
}

/// The forwarder always holds the newest access unit it received: after a
/// run of events it holds the last one received, or what it started with
/// when none arrived.
pub proof fn lemma_forwarder_holds_newest(
    initial: Option<(Seq<u8>, core::time::Duration)>,
    events: Seq<ForwarderEvent>,
)
    ensures
        (forall|i: int| 0 <= i < events.len() ==> !(#[trigger] events[i] is Received))
            ==> latest_after_events(initial, events) == initial,
        forall|i: int|
            0 <= i < events.len() && #[trigger] events[i] is Received && (forall|j: int|
                i < j < events.len() ==> !(#[trigger] events[j] is Received))
                ==> latest_after_events(initial, events) == Some(events[i]->Received_0@),
    decreases events.len(),
{
    if events.len() > 0 {
        let prefix = events.drop_last();
        lemma_forwarder_holds_newest(initial, prefix);
        assert forall|i: int| 0 <= i < prefix.len() implies prefix[i] == #[trigger] events[i] by {}
        assert forall|i: int|
            0 <= i < events.len() && #[trigger] events[i] is Received && (forall|j: int|
                i < j < events.len() ==> !(#[trigger] events[j] is Received))
            implies latest_after_events(initial, events) == Some(events[i]->Received_0@) by {
            if i < events.len() - 1 {
                assert(!(events[events.len() - 1] is Received));
                assert(prefix[i] is Received);
                assert forall|j: int| i < j < prefix.len() implies !(#[trigger] prefix[j] is Received) by {
                    assert(prefix[j] == events[j]);
                }
            }
        }
    }
}

impl VideoForwarder {
    /// A forwarder that starts from the pipeline's latest access unit, if any.
    pub fn new(initial_access_unit: Option<EncodedAccessUnit>) -> (f: Self)
        ensures
            f.latest_access_unit == initial_access_unit,
    {
        VideoForwarder { latest_access_unit: initial_access_unit }
    }

    /// Handles one event. A tick resends the latest access unit (or waits
    /// when there is none); a received access unit becomes the latest and is
    /// written; a lagging receiver only skips what it missed and waits for
    /// the next event; a closed channel or a failed write ends the session.
    pub fn step(&mut self, event: ForwarderEvent) -> (action: ForwarderAction)
        ensures
            unit_view(final(self).latest_access_unit) == latest_after_event(
                unit_view(old(self).latest_access_unit),
                event,
            ),
            match event {
                ForwarderEvent::Tick => {
                    &&& final(self).latest_access_unit == old(self).latest_access_unit
                    &&& match old(self).latest_access_unit {
                        Some(latest) => action matches ForwarderAction::Write(u) && u@ == latest@,
                        None => action is Wait,
                    }
                },
                ForwarderEvent::Received(unit) => {
                    &&& unit_view(final(self).latest_access_unit) == Some(unit@)
                    &&& action == ForwarderAction::Write(unit)
                },
                ForwarderEvent::Lagged => {
                    &&& final(self).latest_access_unit == old(self).latest_access_unit
                    &&& action is Wait
                },
                _ => {
                    &&& final(self).latest_access_unit == old(self).latest_access_unit
                    &&& action is Stop
                },
            },
    {
        match event {
            ForwarderEvent::Tick => match &self.latest_access_unit {
                Some(latest) => ForwarderAction::Write(copy_access_unit(latest)),
                None => ForwarderAction::Wait,
            },
            ForwarderEvent::Received(unit) => {
                self.latest_access_unit = Some(copy_access_unit(&unit));
                ForwarderAction::Write(unit)
            },
            ForwarderEvent::Lagged => ForwarderAction::Wait,
            ForwarderEvent::ChannelClosed => ForwarderAction::Stop,
            ForwarderEvent::WriteFailed => ForwarderAction::Stop,
        }
    }
}

/// What a non-blocking receive from the pipeline's channel gave.
pub enum TryRecvOutcome {
    Received(EncodedAccessUnit),
    Empty,
    Lagged,
    Closed,
}

/// Where draining stands after one receive.
pub enum DrainStep {
    /// Keep receiving; this is the newest access unit so far.
    Continue(EncodedAccessUnit),
    /// Stop; this is the newest access unit.
    Done(EncodedAccessUnit),
}

/// One step of draining the channel down to its newest access unit: a
/// received unit replaces the newest, a lag notice is skipped, and an empty or
/// closed channel ends the draining.
pub fn drain_step(newest: EncodedAccessUnit, outcome: TryRecvOutcome) -> (step: DrainStep)
    ensures
        step == match outcome {
            TryRecvOutcome::Received(next) => DrainStep::Continue(next),
            TryRecvOutcome::Lagged => DrainStep::Continue(newest),
            TryRecvOutcome::Empty => DrainStep::Done(newest),
            TryRecvOutcome::Closed => DrainStep::Done(newest),
        },
{
    match outcome {
        TryRecvOutcome::Received(next) => DrainStep::Continue(next),
        TryRecvOutcome::Lagged => DrainStep::Continue(newest),
        TryRecvOutcome::Empty => DrainStep::Done(newest),
        TryRecvOutcome::Closed => DrainStep::Done(newest),
    }
}

/// Draining a run of receive outcomes from `newest` on: the access unit that
/// draining ends with.
pub open spec fn drained(newest: EncodedAccessUnit, outcomes: Seq<TryRecvOutcome>) -> EncodedAccessUnit
    decreases outcomes.len(),
{
    if outcomes.len() == 0 {
        newest
    } else {
        match outcomes[0] {
            TryRecvOutcome::Received(next) => drained(next, outcomes.drop_first()),
            TryRecvOutcome::Lagged => drained(newest, outcomes.drop_first()),
            _ => newest,
        }
    }
}

/// Whether a receive outcome ends draining.
pub open spec fn ends_drain(outcome: TryRecvOutcome) -> bool {
    outcome is Empty || outcome is Closed
}

/// Draining keeps only the newest access unit: when the channel runs empty
/// or closes at `end`, draining ends with the last unit received before that,
/// or with the one it started from when none was received.
pub proof fn lemma_drain_keeps_newest(
    newest: EncodedAccessUnit,
    outcomes: Seq<TryRecvOutcome>,
    end: int,
)
    requires
        0 <= end < outcomes.len(),
        ends_drain(outcomes[end]),
        forall|j: int| 0 <= j < end ==> !ends_drain(#[trigger] outcomes[j]),
    ensures
        (forall|j: int| 0 <= j < end ==> !(#[trigger] outcomes[j] is Received)) ==> drained(
            newest,
            outcomes,
        ) == newest,
        forall|i: int|
            0 <= i < end && #[trigger] outcomes[i] is Received && (forall|j: int|
                i < j < end ==> !(#[trigger] outcomes[j] is Received)) ==> drained(newest, outcomes)
                == outcomes[i]->Received_0,
    decreases end,
{
    if end > 0 {
        let rest = outcomes.drop_first();
        assert forall|j: int| 0 <= j < end - 1 implies !ends_drain(#[trigger] rest[j]) by {
            assert(rest[j] == outcomes[j + 1]);
        }
        assert(rest[end - 1] == outcomes[end]);
        let next = match outcomes[0] {
            TryRecvOutcome::Received(n) => n,
            _ => newest,
        };
        lemma_drain_keeps_newest(next, rest, end - 1);
        assert(drained(newest, outcomes) == drained(next, rest)) by {
            assert(!ends_drain(outcomes[0]));
        }
        assert forall|i: int|
            0 <= i < end && #[trigger] outcomes[i] is Received && (forall|j: int|
                i < j < end ==> !(#[trigger] outcomes[j] is Received))
            implies drained(newest, outcomes) == outcomes[i]->Received_0 by {
            if i > 0 {
                assert(rest[i - 1] == outcomes[i]);
                assert forall|j: int| i - 1 < j < end - 1 implies !(#[trigger] rest[j] is Received) by {
                    assert(rest[j] == outcomes[j + 1]);
                }
            } else {
                if (forall|j: int| 0 <= j < end - 1 ==> !(#[trigger] rest[j] is Received)) {
                } else {
                    let j = choose|j: int| 0 <= j < end - 1 && (#[trigger] rest[j] is Received);
                    assert(outcomes[j + 1] == rest[j]);
                }
            }
        }
        assert((forall|j: int| 0 <= j < end ==> !(#[trigger] outcomes[j] is Received)) ==> (
        forall|j: int| 0 <= j < end - 1 ==> !(#[trigger] rest[j] is Received))) by {
            assert forall|j: int| 0 <= j < end - 1 implies rest[j] == outcomes[j + 1] by {}
        }
    }
}

} // verus!
