//! What the messages of the display pipeline mean for the process.
//!
//! While the filtering loop runs, the pipeline reports on itself: elements
//! change state, something fails, the stream ends. Most of it is only worth
//! a line of log. Two kinds of message end the process.

use vstd::prelude::*;

verus! {

/// The kinds of message that the pipeline sends.
#[derive(Clone, Copy, Debug, PartialEq, Eq, Structural)]
pub enum BusMessage {
    /// An element went from one playback state to another.
    StateChanged,
    /// An element failed.
    Error,
    /// The stream has ended, by itself or because the filtering loop said so.
    EndOfStream,
    /// Anything else.
    Other,
}

/// Whether a message of this kind ends the process: a failure and the end
/// of the stream do, nothing else does.
pub open spec fn is_final(message: BusMessage) -> bool {
    message == BusMessage::Error || message == BusMessage::EndOfStream
}

/// Tells whether the process is to end on `message`.
pub fn ends_process(message: BusMessage) -> (ends: bool)
    ensures
        ends == is_final(message),
{
    match message {
        BusMessage::Error => true,
        BusMessage::EndOfStream => true,
        BusMessage::StateChanged => false,
        BusMessage::Other => false,
    }
}

} // verus!
