//! The decisions of the loop that carries frames from the capture source
//! to the sink.
//!
//! The loop itself does outside work: it waits for the camera, asks the
//! sink's pool for a buffer, hands buffers over. What it does next is
//! decided here. The driver performs one action, reports what came of it
//! as an event, and is told the state the loop is now in and the action
//! to perform next.

use crate::format::BUF_SIZE;
use vstd::prelude::*;

verus! {

/// Where the loop stands.
#[derive(Clone, Copy, Debug, PartialEq, Eq, Structural)]
pub enum LoopState {
    /// Waiting for the capture source to return a frame.
    Capturing,
    /// A frame of the right length is being filtered into the scratch buffer.
    Filtering,
    /// Waiting for the sink's pool to answer a request for a buffer.
    Acquiring,
    /// The scratch buffer is being copied into a buffer of the pool and
    /// handed to the sink.
    Delivering,
    /// The pool has run dry, and the sink is being told that the stream ends.
    Draining,
    /// The loop has ended. Nothing follows.
    Stopped,
}

/// What the driver reports after it has performed an action.
#[derive(Clone, Copy, Debug, PartialEq, Eq, Structural)]
pub enum LoopEvent {
    /// The capture source returned `len` bytes.
    Captured { len: usize },
    /// The scratch buffer holds the filtered frame.
    Filtered,
    /// The pool yielded a buffer.
    BufferAcquired,
    /// The pool yielded nothing.
    PoolExhausted,
    /// The filled buffer is with the sink.
    Delivered,
    /// The sink has been told that the stream ends.
    EndOfStreamSignalled,
}

/// What the driver is asked to do.
#[derive(Clone, Copy, Debug, PartialEq, Eq, Structural)]
pub enum LoopAction {
    /// Ask the capture source for one frame.
    Capture,
    /// Filter the captured frame into the scratch buffer.
    Filter,
    /// Ask the sink's pool for a buffer.
    AcquireBuffer,
    /// Copy the scratch buffer into the acquired buffer and hand it to the sink.
    Deliver,
    /// Tell the sink that the stream ends.
    SignalEndOfStream,
    /// Leave the loop.
    Halt,
}

/// The work that belongs to a state: what the driver is asked to do when
/// the loop enters it.
pub open spec fn action_of(state: LoopState) -> LoopAction {
    match state {
        LoopState::Capturing => LoopAction::Capture,
        LoopState::Filtering => LoopAction::Filter,
        LoopState::Acquiring => LoopAction::AcquireBuffer,
        LoopState::Delivering => LoopAction::Deliver,
        LoopState::Draining => LoopAction::SignalEndOfStream,
        LoopState::Stopped => LoopAction::Halt,
    }
}

/// The state that follows `state` when `event` answers the work of
/// `state`, and `None` for an event that does not answer it.
///
/// A capture of the wrong length is dropped and the capture repeated. A
/// dry pool is the one way out of the cycle.
pub open spec fn successor(state: LoopState, event: LoopEvent) -> Option<LoopState> {
    match (state, event) {
        (LoopState::Capturing, LoopEvent::Captured { len }) => if len == BUF_SIZE {
            Some(LoopState::Filtering)
        } else {
            Some(LoopState::Capturing)
        },
        (LoopState::Filtering, LoopEvent::Filtered) => Some(LoopState::Acquiring),
        (LoopState::Acquiring, LoopEvent::BufferAcquired) => Some(LoopState::Delivering),
        (LoopState::Acquiring, LoopEvent::PoolExhausted) => Some(LoopState::Draining),
        (LoopState::Delivering, LoopEvent::Delivered) => Some(LoopState::Capturing),
        (LoopState::Draining, LoopEvent::EndOfStreamSignalled) => Some(LoopState::Stopped),
        _ => None,
    }
}

/// The move that `event` causes in `state`: the next state and the action
/// that the driver is to perform for it.
pub open spec fn transition(state: LoopState, event: LoopEvent) -> Option<(LoopState, LoopAction)> {
    match successor(state, event) {
        Some(next) => Some((next, action_of(next))),
        None => None,
    }
}

/// The state and the action with which every run of the loop begins.
pub fn start() -> (begin: (LoopState, LoopAction))
    ensures
        begin == (LoopState::Capturing, LoopAction::Capture),
{
    (LoopState::Capturing, LoopAction::Capture)
}

/// Decides what follows `event` in `state`.
///
/// Returns the next state and the action to perform, or `None` where
/// `event` does not answer the work of `state`: the loop then stays where
/// it is and asks for nothing.
pub fn step(state: LoopState, event: LoopEvent) -> (outcome: Option<(LoopState, LoopAction)>)
    ensures
        outcome == transition(state, event),
        outcome is Some <==> successor(state, event) is Some,
        state == LoopState::Stopped ==> outcome is None,
        (event matches LoopEvent::Captured { len } && len != BUF_SIZE && state
            == LoopState::Capturing) ==> outcome == Some(
            (LoopState::Capturing, LoopAction::Capture),
        ),
        (state == LoopState::Acquiring && event == LoopEvent::PoolExhausted) ==> outcome == Some(
            (LoopState::Draining, LoopAction::SignalEndOfStream),
        ),
        (state == LoopState::Draining && event == LoopEvent::EndOfStreamSignalled) ==> outcome
            == Some((LoopState::Stopped, LoopAction::Halt)),
{
    match (state, event) {
        (LoopState::Capturing, LoopEvent::Captured { len }) => {
            if len == BUF_SIZE {
                Some((LoopState::Filtering, LoopAction::Filter))
            } else {
                Some((LoopState::Capturing, LoopAction::Capture))
            }
        },
        (LoopState::Filtering, LoopEvent::Filtered) => Some(
            (LoopState::Acquiring, LoopAction::AcquireBuffer),
        ),
        (LoopState::Acquiring, LoopEvent::BufferAcquired) => Some(
            (LoopState::Delivering, LoopAction::Deliver),
        ),
        (LoopState::Acquiring, LoopEvent::PoolExhausted) => Some(
            (LoopState::Draining, LoopAction::SignalEndOfStream),
        ),
        (LoopState::Delivering, LoopEvent::Delivered) => Some(
            (LoopState::Capturing, LoopAction::Capture),
        ),
        (LoopState::Draining, LoopEvent::EndOfStreamSignalled) => Some(
            (LoopState::Stopped, LoopAction::Halt),
        ),
        _ => None,
    }
}

/// Where the loop stands once `event` has been reported in `state`: an
/// event that does not answer the work of `state` moves nothing.
pub open spec fn moved(state: LoopState, event: LoopEvent) -> LoopState {
    match successor(state, event) {
        Some(next) => next,
        None => state,
    }
}

/// The state in which the loop stands after the driver has reported
/// `events`, one after the other, beginning in `state`.
pub open spec fn state_after(state: LoopState, events: Seq<LoopEvent>) -> LoopState
    decreases events.len(),
{
    if events.len() == 0 {
        state
    } else {
        state_after(moved(state, events[0]), events.drop_first())
    }
}

/// The actions that the driver is asked for while it reports `events`,
/// beginning in `state`, in the order in which they are asked for.
pub open spec fn actions_during(state: LoopState, events: Seq<LoopEvent>) -> Seq<LoopAction>
    decreases events.len(),
{
    if events.len() == 0 {
        Seq::empty()
    } else {
        match transition(state, events[0]) {
            Some((next, action)) => seq![action] + actions_during(next, events.drop_first()),
            None => actions_during(state, events.drop_first()),
        }
    }
}

/// How often `which` occurs in `actions`.
pub open spec fn occurrences(actions: Seq<LoopAction>, which: LoopAction) -> nat
    decreases actions.len(),
{
    if actions.len() == 0 {
        0
    } else {
        occurrences(actions.drop_first(), which) + if actions[0] == which {
            1nat
        } else {
            0nat
        }
    }
}

/// How many of `events` report a capture of the frame length.
pub open spec fn full_captures(events: Seq<LoopEvent>) -> nat
    decreases events.len(),
{
    if events.len() == 0 {
        0
    } else {
        full_captures(events.drop_first()) + if events[0] == (LoopEvent::Captured {
            len: BUF_SIZE,
        }) {
            1nat
        } else {
            0nat
        }
    }
}

/// Whether, while the driver reports `events` beginning in `state`, the
/// pool answers a request for a buffer with nothing.
pub open spec fn pool_runs_dry(state: LoopState, events: Seq<LoopEvent>) -> bool
    decreases events.len(),
{
    if events.len() == 0 {
        false
    } else if state == LoopState::Acquiring && events[0] == LoopEvent::PoolExhausted {
        true
    } else {
        pool_runs_dry(moved(state, events[0]), events.drop_first())
    }
}

/// Whether `state` lies behind the point at which the pool ran dry.
pub open spec fn has_drained(state: LoopState) -> bool {
    state == LoopState::Draining || state == LoopState::Stopped
}

proof fn lemma_occurrences_push_front(action: LoopAction, rest: Seq<LoopAction>, which: LoopAction)
    ensures
        occurrences(seq![action] + rest, which) == occurrences(rest, which) + if action == which {
            1nat
        } else {
            0nat
        },
{
    assert((seq![action] + rest).drop_first() =~= rest);
}

/// From a state behind the point at which the pool ran dry the loop only
/// goes on to stop: it never asks for a capture, a buffer, a delivery or a
/// second end of stream again, and no pool is asked that could run dry.
pub proof fn lemma_drained_stays_drained(
    state: LoopState,
    events: Seq<LoopEvent>,
    which: LoopAction,
)
    requires
        has_drained(state),
        which != LoopAction::Halt,
    ensures
        has_drained(state_after(state, events)),
        !pool_runs_dry(state, events),
        occurrences(actions_during(state, events), which) == 0,
    decreases events.len(),
{
    if events.len() > 0 {
        let rest = events.drop_first();
        match transition(state, events[0]) {
            Some((next, action)) => {
                lemma_drained_stays_drained(next, rest, which);
                lemma_occurrences_push_front(action, actions_during(next, rest), which);
            },
            None => {
                lemma_drained_stays_drained(state, rest, which);
            },
        }
    }
}

/// Once stopped, the loop stays stopped and asks for nothing.
pub proof fn lemma_stopped_is_final(events: Seq<LoopEvent>)
    ensures
        state_after(LoopState::Stopped, events) == LoopState::Stopped,
        actions_during(LoopState::Stopped, events) == Seq::<LoopAction>::empty(),
    decreases events.len(),
{
    if events.len() > 0 {
        lemma_stopped_is_final(events.drop_first());
    }
}

/// The end of the stream is signalled at most once, and exactly once in a
/// run in which the pool runs dry. Whatever the driver reports, from any
/// state that lies before that point: the loop gets behind it if and only
/// if the pool answers a request with nothing, and the number of times the
/// driver is asked to signal the end of the stream is then 1, and 0
/// otherwise.
pub proof fn lemma_end_of_stream_once_from(state: LoopState, events: Seq<LoopEvent>)
    requires
        !has_drained(state),
    ensures
        has_drained(state_after(state, events)) <==> pool_runs_dry(state, events),
        occurrences(actions_during(state, events), LoopAction::SignalEndOfStream) == (
        if pool_runs_dry(state, events) {
            1nat
        } else {
            0nat
        }),
    decreases events.len(),
{
    if events.len() > 0 {
        let rest = events.drop_first();
        match transition(state, events[0]) {
            Some((next, action)) => {
                lemma_occurrences_push_front(
                    action,
                    actions_during(next, rest),
                    LoopAction::SignalEndOfStream,
                );
                if has_drained(next) {
                    lemma_drained_stays_drained(next, rest, LoopAction::SignalEndOfStream);
                } else {
                    lemma_end_of_stream_once_from(next, rest);
                }
            },
            None => {
                lemma_end_of_stream_once_from(state, rest);
            },
        }
    }
}

/// In a run of the loop from its beginning the end of the stream is
/// signalled exactly once if the pool ever answers a request with nothing,
/// and never otherwise; and the loop is on its way to stop, or has stopped,
/// in exactly those runs.
pub proof fn lemma_end_of_stream_once(events: Seq<LoopEvent>)
    ensures
        has_drained(state_after(LoopState::Capturing, events)) <==> pool_runs_dry(
            LoopState::Capturing,
            events,
        ),
        occurrences(actions_during(LoopState::Capturing, events), LoopAction::SignalEndOfStream)
            == (if pool_runs_dry(LoopState::Capturing, events) {
            1nat
        } else {
            0nat
        }),
{
    lemma_end_of_stream_once_from(LoopState::Capturing, events);
}

/// How many deliveries a state has in hand: one where a full capture has
/// been accepted and the delivery of its frame has not been asked for yet.
pub open spec fn deliveries_owed(state: LoopState) -> nat {
    if state == LoopState::Filtering || state == LoopState::Acquiring {
        1
    } else {
        0
    }
}

/// Nothing is delivered but what came of a capture of the frame length:
/// the driver is asked to deliver at most once for every such capture that
/// it reports, so a capture of another length never reaches the sink.
pub proof fn lemma_deliveries_from(state: LoopState, events: Seq<LoopEvent>)
    ensures
        occurrences(actions_during(state, events), LoopAction::Deliver) <= full_captures(events)
            + deliveries_owed(state),
    decreases events.len(),
{
    if events.len() > 0 {
        let rest = events.drop_first();
        match transition(state, events[0]) {
            Some((next, action)) => {
                lemma_occurrences_push_front(
                    action,
                    actions_during(next, rest),
                    LoopAction::Deliver,
                );
                lemma_deliveries_from(next, rest);
            },
            None => {
                lemma_deliveries_from(state, rest);
            },
        }
    }
}

/// In a run of the loop from its beginning there are at most as many
/// deliveries as captures of the frame length.
pub proof fn lemma_only_full_captures_delivered(events: Seq<LoopEvent>)
    ensures
        occurrences(actions_during(LoopState::Capturing, events), LoopAction::Deliver)
            <= full_captures(events),
{
    lemma_deliveries_from(LoopState::Capturing, events);
}

/// A capture of any length but the frame length changes nothing: the loop
/// goes on from it as if it had not been reported.
pub proof fn lemma_malformed_capture_changes_nothing(len: usize, events: Seq<LoopEvent>)
    requires
        len != BUF_SIZE,
    ensures
        state_after(LoopState::Capturing, seq![LoopEvent::Captured { len }] + events)
            == state_after(LoopState::Capturing, events),
        actions_during(LoopState::Capturing, seq![LoopEvent::Captured { len }] + events)
            == seq![LoopAction::Capture] + actions_during(LoopState::Capturing, events),
{
    let all = seq![LoopEvent::Captured { len }] + events;
    assert(all.drop_first() =~= events);
    assert(all[0] == LoopEvent::Captured { len });
}

} // verus!
