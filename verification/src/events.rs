//! The event vocabulary on both sides of the translator.
//!
//! A [`BackendEvent`] is what one complete backend line means; an
//! [`OutEvent`] is one structured lifecycle event owed to the downstream
//! client. Each has a ghost view over mathematical sequences so that
//! contracts and lemmas can speak of event streams abstractly.

use vstd::prelude::*;

verus! {

/// A parsed, immutable logical unit produced from one complete backend line.
pub enum BackendEvent {
    /// An incremental text fragment (possibly empty).
    TextDelta(String),
    /// The backend reported a completion reason for the stream.
    StreamTerminated(Option<String>),
    /// The literal terminal sentinel payload.
    SentinelDone,
    /// A payload that failed JSON decoding or lacked the expected fields;
    /// silently skipped.
    Malformed,
}

/// The mathematical view of a [`BackendEvent`].
pub enum BackendEventView {
    TextDelta(Seq<char>),
    StreamTerminated(Option<Seq<char>>),
    SentinelDone,
    Malformed,
}

impl View for BackendEvent {
    type V = BackendEventView;

    open spec fn view(&self) -> BackendEventView {
        match self {
            BackendEvent::TextDelta(s) => BackendEventView::TextDelta(s@),
            BackendEvent::StreamTerminated(r) => BackendEventView::StreamTerminated(
                match r {
                    Some(s) => Some(s@),
                    None => None,
                },
            ),
            BackendEvent::SentinelDone => BackendEventView::SentinelDone,
            BackendEvent::Malformed => BackendEventView::Malformed,
        }
    }
}

/// One structured lifecycle event owed to the downstream protocol.
pub enum OutEvent {
    /// Opens the message; carries the freshly generated message identifier.
    MessageStart { message_id: String },
    /// Opens content block zero with an empty text placeholder.
    ContentBlockStart,
    /// One incremental text fragment for content block zero.
    ContentDelta { text: String },
    /// Closes content block zero.
    ContentBlockStop,
    /// Carries the stop reason and the final output-token count.
    MessageDelta { stop_reason: String, output_tokens: u64 },
    /// Closes the message.
    MessageStop,
    /// Substitutes for the close sequence after a transport failure.
    Error { message: String },
}

/// The mathematical view of an [`OutEvent`].
pub enum OutEventView {
    MessageStart { message_id: Seq<char> },
    ContentBlockStart,
    ContentDelta { text: Seq<char> },
    ContentBlockStop,
    MessageDelta { stop_reason: Seq<char>, output_tokens: nat },
    MessageStop,
    Error { message: Seq<char> },
}

impl View for OutEvent {
    type V = OutEventView;

    open spec fn view(&self) -> OutEventView {
        match self {
            OutEvent::MessageStart { message_id } => OutEventView::MessageStart {
                message_id: message_id@,
            },
            OutEvent::ContentBlockStart => OutEventView::ContentBlockStart,
            OutEvent::ContentDelta { text } => OutEventView::ContentDelta { text: text@ },
            OutEvent::ContentBlockStop => OutEventView::ContentBlockStop,
            OutEvent::MessageDelta { stop_reason, output_tokens } => OutEventView::MessageDelta {
                stop_reason: stop_reason@,
                output_tokens: *output_tokens as nat,
            },
            OutEvent::MessageStop => OutEventView::MessageStop,
            OutEvent::Error { message } => OutEventView::Error { message: message@ },
        }
    }
}

/// The views of a sequence of outbound events, in order.
pub open spec fn out_views(s: Seq<OutEvent>) -> Seq<OutEventView> {
    s.map_values(|e: OutEvent| e@)
}

/// The views of a sequence of backend events, in order.
pub open spec fn backend_views(s: Seq<BackendEvent>) -> Seq<BackendEventView> {
    s.map_values(|e: BackendEvent| e@)
}

} // verus!
