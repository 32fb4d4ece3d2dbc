//! The lifecycle synthesizer: one translation session per client request.
//!
//! A session moves through `NotStarted -> Streaming -> Finished` and never
//! back. Opening it emits the start pair (message started, content block
//! started) exactly once; every text delta emits one content-delta event and
//! raises the output-token count by one; the first terminal backend event,
//! or the end of input, emits the close triple (content block stopped,
//! message delta with stop reason and final token count, message stopped)
//! exactly once; a transport failure emits one error event instead of the
//! close triple. The lemmas at the end state these guarantees for whole
//! event sequences.

use vstd::prelude::*;

use crate::events::{out_views, BackendEvent, BackendEventView, OutEvent, OutEventView};

verus! {

/// The phase of a session. There are no backward transitions.
#[derive(Clone, Copy, PartialEq, Eq, Structural)]
pub enum Phase {
    NotStarted,
    Streaming,
    Finished,
}

/// The stop reason reported when the backend supplied no more specific one.
pub open spec fn end_turn_reason() -> Seq<char> {
    "end_turn"@
}

/// The stop reason carried by a termination event, with the default applied.
pub open spec fn reason_view(r: Option<Seq<char>>) -> Seq<char> {
    match r {
        Some(s) => s,
        None => end_turn_reason(),
    }
}

/// The start pair emitted exactly once when a session opens.
pub open spec fn open_seq(id: Seq<char>) -> Seq<OutEventView> {
    seq![
        OutEventView::MessageStart { message_id: id },
        OutEventView::ContentBlockStart,
    ]
}

/// The close triple emitted exactly once when a session finishes normally.
pub open spec fn close_seq(reason: Seq<char>, tokens: nat) -> Seq<OutEventView> {
    seq![
        OutEventView::ContentBlockStop,
        OutEventView::MessageDelta { stop_reason: reason, output_tokens: tokens },
        OutEventView::MessageStop,
    ]
}

/// Whether a backend event ends the stream.
pub open spec fn is_terminal(ev: BackendEventView) -> bool {
    ev is SentinelDone || ev is StreamTerminated
}

/// One synthesizer step: the next phase, the next token count, and what is
/// emitted. Events arriving after the session finished are ignored.
pub open spec fn model_observe(phase: Phase, tokens: nat, ev: BackendEventView) -> (
    Phase,
    nat,
    Seq<OutEventView>,
) {
    if phase is Streaming {
        match ev {
            BackendEventView::Malformed => (Phase::Streaming, tokens, Seq::<OutEventView>::empty()),
            BackendEventView::TextDelta(c) => (
                Phase::Streaming,
                tokens + 1,
                seq![OutEventView::ContentDelta { text: c }],
            ),
            BackendEventView::SentinelDone => (
                Phase::Finished,
                tokens,
                close_seq(end_turn_reason(), tokens),
            ),
            BackendEventView::StreamTerminated(r) => (
                Phase::Finished,
                tokens,
                close_seq(reason_view(r), tokens),
            ),
        }
    } else {
        (phase, tokens, Seq::<OutEventView>::empty())
    }
}

/// The synthesizer folded over a whole sequence of backend events.
pub open spec fn model_observe_all(phase: Phase, tokens: nat, evs: Seq<BackendEventView>) -> (
    Phase,
    nat,
    Seq<OutEventView>,
)
    decreases evs.len(),
{
    if evs.len() == 0 {
        (phase, tokens, Seq::<OutEventView>::empty())
    } else {
        let first = model_observe(phase, tokens, evs[0]);
        let rest = model_observe_all(first.0, first.1, evs.drop_first());
        (rest.0, rest.1, first.2 + rest.2)
    }
}

/// What the end of input emits: the close triple with the default stop
/// reason when the stream was still open, nothing otherwise.
pub open spec fn model_finish(phase: Phase, tokens: nat) -> (Phase, Seq<OutEventView>) {
    if phase is Streaming {
        (Phase::Finished, close_seq(end_turn_reason(), tokens))
    } else {
        (phase, Seq::<OutEventView>::empty())
    }
}

/// The complete output of a session that observes `evs` and then reaches the
/// end of its input.
pub open spec fn session_outputs(id: Seq<char>, evs: Seq<BackendEventView>) -> Seq<OutEventView> {
    let mid = model_observe_all(Phase::Streaming, 0, evs);
    open_seq(id) + mid.2 + model_finish(mid.0, mid.1).1
}

/// One translation session: created per streaming request, discarded when
/// the response stream closes.
pub struct Session {
    pub phase: Phase,
    pub message_id: String,
    /// Diagnostic accumulation of all delta text observed; not needed for
    /// correctness.
    pub accumulated_text: String,
    pub output_tokens: u64,
    pub first_token_seen: bool,
}

impl Session {
    /// A fresh session carrying the given message identifier.
    pub fn new(message_id: String) -> (s: Session)
        ensures
            s.phase is NotStarted,
            s.message_id == message_id,
            s.accumulated_text@ == Seq::<char>::empty(),
            s.output_tokens == 0,
            !s.first_token_seen,
    {
        Session {
            phase: Phase::NotStarted,
            message_id,
            accumulated_text: String::new(),
            output_tokens: 0,
            first_token_seen: false,
        }
    }

    /// Enters the streaming phase and emits the start pair, exactly once per
    /// session.
    pub fn open(&mut self) -> (out: Vec<OutEvent>)
        requires
            old(self).phase is NotStarted,
        ensures
            final(self).phase is Streaming,
            final(self).message_id == old(self).message_id,
            final(self).accumulated_text == old(self).accumulated_text,
            final(self).output_tokens == old(self).output_tokens,
            final(self).first_token_seen == old(self).first_token_seen,
            out_views(out@) == open_seq(old(self).message_id@),
    {
        self.phase = Phase::Streaming;
        let mut out: Vec<OutEvent> = Vec::new();
        out.push(OutEvent::MessageStart { message_id: self.message_id.clone() });
        out.push(OutEvent::ContentBlockStart);
        proof {
            assert(out_views(out@) =~= open_seq(self.message_id@));
        }
        out
    }

    /// Feeds one backend event to the synthesizer and returns what it emits.
    pub fn observe(&mut self, ev: BackendEvent) -> (out: Vec<OutEvent>)
        requires
            !(old(self).phase is NotStarted),
            old(self).output_tokens < u64::MAX,
        ensures
            ({
                let m = model_observe(old(self).phase, old(self).output_tokens as nat, ev@);
                &&& final(self).phase == m.0
                &&& final(self).output_tokens as nat == m.1
                &&& out_views(out@) == m.2
            }),
            final(self).message_id == old(self).message_id,
            final(self).accumulated_text@ == (match ev@ {
                BackendEventView::TextDelta(c) => if old(self).phase is Streaming {
                    old(self).accumulated_text@ + c
                } else {
                    old(self).accumulated_text@
                },
                _ => old(self).accumulated_text@,
            }),
            final(self).first_token_seen == (old(self).first_token_seen || (match ev@ {
                BackendEventView::TextDelta(c) => old(self).phase is Streaming && c.len() > 0,
                _ => false,
            })),
    {
        let ghost phase0 = self.phase;
        let mut out: Vec<OutEvent> = Vec::new();
        match self.phase {
            Phase::NotStarted => {},
            Phase::Finished => {},
            Phase::Streaming => {
                match ev {
                    BackendEvent::Malformed => {},
                    BackendEvent::TextDelta(c) => {
                        self.accumulated_text.append(c.as_str());
                        if !c.as_str().is_empty() {
                            self.first_token_seen = true;
                        }
                        self.output_tokens = self.output_tokens + 1;
                        out.push(OutEvent::ContentDelta { text: c });
                        proof {
                            assert(out_views(out@) =~= seq![
                                OutEventView::ContentDelta { text: c@ },
                            ]);
                        }
                    },
                    BackendEvent::SentinelDone => {
                        self.phase = Phase::Finished;
                        push_close(&mut out, String::from_str("end_turn"), self.output_tokens);
                    },
                    BackendEvent::StreamTerminated(r) => {
                        self.phase = Phase::Finished;
                        let reason = match r {
                            Some(s) => s,
                            None => String::from_str("end_turn"),
                        };
                        push_close(&mut out, reason, self.output_tokens);
                    },
                }
            },
        }
        proof {
            if !(phase0 is Streaming) || ev@ is Malformed {
                assert(out_views(out@) =~= Seq::<OutEventView>::empty());
            }
        }
        out
    }

    /// Signals the end of the backend input: closes the stream if it was
    /// still open.
    pub fn finish(&mut self) -> (out: Vec<OutEvent>)
        requires
            !(old(self).phase is NotStarted),
        ensures
            ({
                let m = model_finish(old(self).phase, old(self).output_tokens as nat);
                &&& final(self).phase == m.0
                &&& out_views(out@) == m.1
            }),
            final(self).message_id == old(self).message_id,
            final(self).accumulated_text == old(self).accumulated_text,
            final(self).output_tokens == old(self).output_tokens,
            final(self).first_token_seen == old(self).first_token_seen,
    {
        let mut out: Vec<OutEvent> = Vec::new();
        match self.phase {
            Phase::Streaming => {
                self.phase = Phase::Finished;
                push_close(&mut out, String::from_str("end_turn"), self.output_tokens);
            },
            _ => {
                proof {
                    assert(out_views(out@) =~= Seq::<OutEventView>::empty());
                }
            },
        }
        out
    }

    /// Signals a transport or parse failure: emits one error event in place
    /// of the close triple. Never emits after the session finished, so a
    /// session never produces both a close triple and an error event.
    pub fn fail(&mut self, message: String) -> (out: Vec<OutEvent>)
        requires
            !(old(self).phase is NotStarted),
        ensures
            final(self).phase is Finished,
            old(self).phase is Streaming ==> out_views(out@) == seq![
                OutEventView::Error { message: message@ },
            ],
            old(self).phase is Finished ==> out@.len() == 0,
            final(self).message_id == old(self).message_id,
            final(self).accumulated_text == old(self).accumulated_text,
            final(self).output_tokens == old(self).output_tokens,
            final(self).first_token_seen == old(self).first_token_seen,
    {
        let mut out: Vec<OutEvent> = Vec::new();
        match self.phase {
            Phase::Streaming => {
                self.phase = Phase::Finished;
                out.push(OutEvent::Error { message });
                proof {
                    assert(out_views(out@) =~= seq![OutEventView::Error { message: message@ }]);
                }
            },
            _ => {
                self.phase = Phase::Finished;
            },
        }
        out
    }
}

/// Appends the close triple carrying the given stop reason and final token
/// count.
fn push_close(out: &mut Vec<OutEvent>, reason: String, tokens: u64)
    ensures
        out_views(final(out)@) == out_views(old(out)@) + close_seq(reason@, tokens as nat),
{
    out.push(OutEvent::ContentBlockStop);
    out.push(OutEvent::MessageDelta { stop_reason: reason, output_tokens: tokens });
    out.push(OutEvent::MessageStop);
    proof {
        assert(out_views(out@) =~= out_views(old(out)@) + close_seq(reason@, tokens as nat));
    }
}

/// Relies on `uuid::Uuid::new_v4` and its hyphenated display form (36
/// characters): returns `"msg_"` followed by a freshly generated identifier.
/// The value is random; only its length and prefix hold of every outcome.
#[verifier::external_body]
pub(crate) fn new_message_id() -> (r: String)
    ensures
        r@.len() == 40,
        r@.subrange(0, 4) == "msg_"@,
{
    let mut s = String::from("msg_");
    s.push_str(&uuid::Uuid::new_v4().to_string());
    s
}

// ---------------------------------------------------------------------------
// The guarantees over whole event sequences.
// ---------------------------------------------------------------------------

/// The number of text deltas (empty ones included) observed before the first
/// terminal event: what the final usage count must equal.
pub open spec fn tokens_observed(evs: Seq<BackendEventView>) -> nat
    decreases evs.len(),
{
    if evs.len() == 0 {
        0
    } else if is_terminal(evs[0]) {
        0
    } else if evs[0] is TextDelta {
        1 + tokens_observed(evs.drop_first())
    } else {
        tokens_observed(evs.drop_first())
    }
}

/// The content-delta events owed for the deltas observed before the first
/// terminal event, in order.
pub open spec fn deltas_observed(evs: Seq<BackendEventView>) -> Seq<OutEventView>
    decreases evs.len(),
{
    if evs.len() == 0 {
        Seq::<OutEventView>::empty()
    } else if is_terminal(evs[0]) {
        Seq::<OutEventView>::empty()
    } else {
        match evs[0] {
            BackendEventView::TextDelta(c) => seq![OutEventView::ContentDelta { text: c }]
                + deltas_observed(evs.drop_first()),
            _ => deltas_observed(evs.drop_first()),
        }
    }
}

/// Whether some terminal event occurs in the sequence.
pub open spec fn terminated_in(evs: Seq<BackendEventView>) -> bool
    decreases evs.len(),
{
    if evs.len() == 0 {
        false
    } else if is_terminal(evs[0]) {
        true
    } else {
        terminated_in(evs.drop_first())
    }
}

/// The stop reason carried by the first terminal event, with the default
/// applied; the default when there is none.
pub open spec fn first_stop_reason(evs: Seq<BackendEventView>) -> Seq<char>
    decreases evs.len(),
{
    if evs.len() == 0 {
        end_turn_reason()
    } else {
        match evs[0] {
            BackendEventView::SentinelDone => end_turn_reason(),
            BackendEventView::StreamTerminated(r) => reason_view(r),
            _ => first_stop_reason(evs.drop_first()),
        }
    }
}

/// The stop reason a whole session reports.
pub open spec fn session_stop_reason(evs: Seq<BackendEventView>) -> Seq<char> {
    if terminated_in(evs) {
        first_stop_reason(evs)
    } else {
        end_turn_reason()
    }
}

/// A finished session ignores everything: no events, no state change.
pub proof fn lemma_finished_silent(tokens: nat, evs: Seq<BackendEventView>)
    ensures
        model_observe_all(Phase::Finished, tokens, evs).0 is Finished,
        model_observe_all(Phase::Finished, tokens, evs).1 == tokens,
        model_observe_all(Phase::Finished, tokens, evs).2 == Seq::<OutEventView>::empty(),
    decreases evs.len(),
{
    if evs.len() > 0 {
        lemma_finished_silent(tokens, evs.drop_first());
        assert(model_observe_all(Phase::Finished, tokens, evs).2
            =~= Seq::<OutEventView>::empty());
    }
}

/// Exactly one content-delta event is owed per observed text delta.
pub proof fn lemma_deltas_observed_shape(evs: Seq<BackendEventView>)
    ensures
        deltas_observed(evs).len() == tokens_observed(evs),
        forall|i: int|
            0 <= i < deltas_observed(evs).len() ==> #[trigger] deltas_observed(
                evs,
            )[i] is ContentDelta,
    decreases evs.len(),
{
    if evs.len() > 0 && !is_terminal(evs[0]) {
        lemma_deltas_observed_shape(evs.drop_first());
    }
}

/// The synthesizer run from a streaming state: it emits exactly the owed
/// content deltas, closed by the close triple if and only if a terminal
/// event occurs, with the final count raised by exactly the observed deltas.
pub proof fn lemma_model_run(tokens: nat, evs: Seq<BackendEventView>)
    ensures
        ({
            let m = model_observe_all(Phase::Streaming, tokens, evs);
            &&& terminated_in(evs) ==> m.0 is Finished && m.2 == deltas_observed(evs) + close_seq(
                first_stop_reason(evs),
                tokens + tokens_observed(evs),
            )
            &&& !terminated_in(evs) ==> m.0 is Streaming && m.1 == tokens + tokens_observed(evs)
                && m.2 == deltas_observed(evs)
        }),
    decreases evs.len(),
{
    if evs.len() == 0 {
        assert(model_observe_all(Phase::Streaming, tokens, evs).2 =~= deltas_observed(evs));
    } else {
        let first = model_observe(Phase::Streaming, tokens, evs[0]);
        match evs[0] {
            BackendEventView::Malformed => {
                lemma_model_run(tokens, evs.drop_first());
                assert(model_observe_all(Phase::Streaming, tokens, evs).2 =~= model_observe_all(
                    Phase::Streaming,
                    tokens,
                    evs.drop_first(),
                ).2);
            },
            BackendEventView::TextDelta(c) => {
                lemma_model_run(tokens + 1, evs.drop_first());
                if terminated_in(evs.drop_first()) {
                    assert(model_observe_all(Phase::Streaming, tokens, evs).2 =~= deltas_observed(
                        evs,
                    ) + close_seq(first_stop_reason(evs), tokens + tokens_observed(evs)));
                } else {
                    assert(model_observe_all(Phase::Streaming, tokens, evs).2 =~= deltas_observed(
                        evs,
                    ));
                }
            },
            BackendEventView::SentinelDone => {
                lemma_finished_silent(tokens, evs.drop_first());
                assert(model_observe_all(Phase::Streaming, tokens, evs).2 =~= deltas_observed(evs)
                    + close_seq(first_stop_reason(evs), tokens + tokens_observed(evs)));
            },
            BackendEventView::StreamTerminated(r) => {
                lemma_finished_silent(tokens, evs.drop_first());
                assert(model_observe_all(Phase::Streaming, tokens, evs).2 =~= deltas_observed(evs)
                    + close_seq(first_stop_reason(evs), tokens + tokens_observed(evs)));
            },
        }
    }
}

/// The output of every session begins with exactly the start pair, ends with
/// exactly the close triple, and carries nothing but content deltas in
/// between: each boundary event appears exactly once.
pub proof fn lemma_session_event_shape(id: Seq<char>, evs: Seq<BackendEventView>)
    ensures
        ({
            let out = session_outputs(id, evs);
            let n = out.len();
            &&& n == tokens_observed(evs) + 5
            &&& out[0] == OutEventView::MessageStart { message_id: id }
            &&& out[1] == OutEventView::ContentBlockStart
            &&& forall|i: int| 2 <= i < n - 3 ==> #[trigger] out[i] is ContentDelta
            &&& out[n - 3] == OutEventView::ContentBlockStop
            &&& out[n - 2] == OutEventView::MessageDelta {
                stop_reason: session_stop_reason(evs),
                output_tokens: tokens_observed(evs),
            }
            &&& out[n - 1] == OutEventView::MessageStop
        }),
{
    lemma_model_run(0, evs);
    lemma_deltas_observed_shape(evs);
    let mid = model_observe_all(Phase::Streaming, 0, evs);
    assert(session_outputs(id, evs) =~= open_seq(id) + deltas_observed(evs) + close_seq(
        session_stop_reason(evs),
        tokens_observed(evs),
    ));
}

/// The final usage count in the message-delta event equals exactly the
/// number of text deltas observed in the session, empty ones included.
pub proof fn lemma_session_token_count(id: Seq<char>, evs: Seq<BackendEventView>)
    ensures
        ({
            let out = session_outputs(id, evs);
            out[out.len() - 2] matches OutEventView::MessageDelta { stop_reason, output_tokens }
                && output_tokens == tokens_observed(evs)
        }),
{
    lemma_session_event_shape(id, evs);
}

/// Everything up to the first terminal event determines the whole session:
/// how the observed prefix continues has no influence.
pub proof fn lemma_prefix_to_first_terminal(evs: Seq<BackendEventView>, i: int)
    requires
        0 <= i < evs.len(),
        is_terminal(evs[i]),
        forall|j: int| 0 <= j < i ==> !is_terminal(#[trigger] evs[j]),
    ensures
        terminated_in(evs),
        terminated_in(evs.take(i + 1)),
        deltas_observed(evs) == deltas_observed(evs.take(i + 1)),
        tokens_observed(evs) == tokens_observed(evs.take(i + 1)),
        first_stop_reason(evs) == first_stop_reason(evs.take(i + 1)),
        first_stop_reason(evs) == (match evs[i] {
            BackendEventView::StreamTerminated(r) => reason_view(r),
            _ => end_turn_reason(),
        }),
    decreases i,
{
    if i == 0 {
        assert(evs.take(1)[0] == evs[0]);
        assert(deltas_observed(evs) =~= deltas_observed(evs.take(1)));
    } else {
        let tail = evs.drop_first();
        assert(tail[i - 1] == evs[i]);
        assert(forall|j: int| 0 <= j < i - 1 ==> !is_terminal(#[trigger] tail[j]));
        lemma_prefix_to_first_terminal(tail, i - 1);
        assert(evs.take(i + 1).drop_first() =~= tail.take(i));
        assert(evs.take(i + 1)[0] == evs[0]);
        assert(!is_terminal(evs[0]));
        match evs[0] {
            BackendEventView::TextDelta(c) => {
                assert(deltas_observed(evs) =~= deltas_observed(evs.take(i + 1)));
            },
            _ => {},
        }
    }
}

/// A terminal sentinel anywhere in the input immediately triggers the close
/// sequence with the default stop reason, even when no completion reason was
/// ever supplied, and nothing after it matters.
pub proof fn lemma_sentinel_closes(id: Seq<char>, evs: Seq<BackendEventView>, i: int)
    requires
        0 <= i < evs.len(),
        evs[i] is SentinelDone,
        forall|j: int| 0 <= j < i ==> !is_terminal(#[trigger] evs[j]),
    ensures
        session_outputs(id, evs) == session_outputs(id, evs.take(i + 1)),
        session_outputs(id, evs) == open_seq(id) + deltas_observed(evs) + close_seq(
            end_turn_reason(),
            tokens_observed(evs),
        ),
{
    lemma_prefix_to_first_terminal(evs, i);
    lemma_model_run(0, evs);
    lemma_model_run(0, evs.take(i + 1));
    assert(session_outputs(id, evs) =~= open_seq(id) + deltas_observed(evs) + close_seq(
        end_turn_reason(),
        tokens_observed(evs),
    ));
    assert(session_outputs(id, evs.take(i + 1)) =~= open_seq(id) + deltas_observed(evs)
        + close_seq(end_turn_reason(), tokens_observed(evs)));
}

} // verus!
