//! The stream-translation engine: one backend byte stream in, one structured
//! event sequence out.
//!
//! A [`Translator`] owns the line buffer and the session of one client
//! request. Each chunk of backend bytes pushed into it yields exactly the
//! outbound events owed for the lines that chunk completes; the end of the
//! backend stream and a transport failure are signalled separately. The
//! caller performs the reads and writes; every decision stands here.

use vstd::prelude::*;

use crate::events::{backend_views, out_views, BackendEventView, OutEvent, OutEventView};
use crate::frame_reader::{split_rec, trim, LineBuffer, LINE_FEED};
use crate::parser::{lemma_parse_line_bounds, parse_line, parse_line_spec};
use crate::session::{
    model_finish, model_observe, model_observe_all, open_seq, Phase, Session,
};

verus! {

/// The backend events meant by a sequence of completed raw lines, each
/// trimmed and classified, in order.
pub open spec fn events_of_lines(lines: Seq<Seq<u8>>) -> Seq<BackendEventView>
    decreases lines.len(),
{
    if lines.len() == 0 {
        Seq::<BackendEventView>::empty()
    } else {
        parse_line_spec(trim(lines[0])) + events_of_lines(lines.drop_first())
    }
}

/// Classifying one more completed line appends its events.
pub proof fn lemma_events_of_lines_snoc(lines: Seq<Seq<u8>>, l: Seq<u8>)
    ensures
        events_of_lines(lines.push(l)) == events_of_lines(lines) + parse_line_spec(trim(l)),
    decreases lines.len(),
{
    if lines.len() == 0 {
        assert(lines.push(l)[0] == l);
        assert(lines.push(l).drop_first() =~= Seq::<Seq<u8>>::empty());
        assert(events_of_lines(Seq::<Seq<u8>>::empty()) =~= Seq::<BackendEventView>::empty());
        assert(events_of_lines(lines.push(l)) =~= events_of_lines(lines) + parse_line_spec(
            trim(l),
        ));
    } else {
        assert(lines.push(l).drop_first() =~= lines.drop_first().push(l));
        lemma_events_of_lines_snoc(lines.drop_first(), l);
        assert(lines.push(l)[0] == lines[0]);
        assert(events_of_lines(lines.push(l)) =~= events_of_lines(lines) + parse_line_spec(
            trim(l),
        ));
    }
}

/// At most two backend events come out of each completed line.
pub proof fn lemma_events_of_lines_len(lines: Seq<Seq<u8>>)
    ensures
        events_of_lines(lines).len() <= 2 * lines.len(),
    decreases lines.len(),
{
    if lines.len() > 0 {
        lemma_parse_line_bounds(trim(lines[0]));
        lemma_events_of_lines_len(lines.drop_first());
    }
}

/// The synthesizer folded over a concatenation runs the two parts in order.
pub proof fn lemma_model_observe_all_append(
    phase: Phase,
    tokens: nat,
    a: Seq<BackendEventView>,
    b: Seq<BackendEventView>,
)
    ensures
        ({
            let m1 = model_observe_all(phase, tokens, a);
            let m2 = model_observe_all(m1.0, m1.1, b);
            let m = model_observe_all(phase, tokens, a + b);
            m.0 == m2.0 && m.1 == m2.1 && m.2 == m1.2 + m2.2
        }),
    decreases a.len(),
{
    if a.len() == 0 {
        assert(a + b =~= b);
        let m1 = model_observe_all(phase, tokens, a);
        let m2 = model_observe_all(m1.0, m1.1, b);
        assert(m1.2 + m2.2 =~= m2.2);
    } else {
        assert((a + b).drop_first() =~= a.drop_first() + b);
        let first = model_observe(phase, tokens, a[0]);
        lemma_model_observe_all_append(first.0, first.1, a.drop_first(), b);
        let m1 = model_observe_all(phase, tokens, a);
        let m2 = model_observe_all(m1.0, m1.1, b);
        assert(model_observe_all(phase, tokens, a + b).2 =~= m1.2 + m2.2);
    }
}

/// The token count grows by at most one per event observed.
pub proof fn lemma_model_token_bound(phase: Phase, tokens: nat, evs: Seq<BackendEventView>)
    ensures
        model_observe_all(phase, tokens, evs).1 <= tokens + evs.len(),
    decreases evs.len(),
{
    if evs.len() > 0 {
        let first = model_observe(phase, tokens, evs[0]);
        lemma_model_token_bound(first.0, first.1, evs.drop_first());
    }
}

/// The translation engine of one client request.
pub struct Translator {
    pub buffer: LineBuffer,
    pub session: Session,
}

impl Translator {
    /// The buffer never holds a completed line, and the session has been
    /// opened.
    pub open spec fn wf(&self) -> bool {
        &&& !(self.session.phase is NotStarted)
        &&& !self.buffer@.contains(LINE_FEED)
    }

    /// Starts a session under the given message identifier and returns the
    /// start pair, emitted eagerly and exactly once.
    pub fn with_message_id(message_id: String) -> (r: (Translator, Vec<OutEvent>))
        ensures
            r.0.wf(),
            r.0.buffer@ == Seq::<u8>::empty(),
            r.0.session.phase is Streaming,
            r.0.session.output_tokens == 0,
            r.0.session.message_id == message_id,
            out_views(r.1@) == open_seq(message_id@),
    {
        let mut session = Session::new(message_id);
        let out = session.open();
        let buffer = LineBuffer::new();
        proof {
            assert(!buffer@.contains(LINE_FEED));
        }
        (Translator { buffer, session }, out)
    }

    /// Starts a session under a freshly generated message identifier.
    pub fn new() -> (r: (Translator, Vec<OutEvent>))
        ensures
            r.0.wf(),
            r.0.buffer@ == Seq::<u8>::empty(),
            r.0.session.phase is Streaming,
            r.0.session.output_tokens == 0,
            out_views(r.1@) == open_seq(r.0.session.message_id@),
    {
        let id = crate::session::new_message_id();
        Translator::with_message_id(id)
    }

    /// Consumes one chunk of the backend byte stream and returns exactly the
    /// events owed for the lines it completes, in order.
    pub fn push_chunk(&mut self, chunk: &[u8]) -> (out: Vec<OutEvent>)
        requires
            old(self).wf(),
            old(self).session.output_tokens + 2 * (old(self).buffer@.len() + chunk@.len())
                <= u64::MAX,
        ensures
            final(self).wf(),
            ({
                let r = split_rec(old(self).buffer@, chunk@);
                let m = model_observe_all(
                    old(self).session.phase,
                    old(self).session.output_tokens as nat,
                    events_of_lines(r.0),
                );
                &&& final(self).buffer@ == r.1
                &&& final(self).session.phase == m.0
                &&& final(self).session.output_tokens as nat == m.1
                &&& out_views(out@) == m.2
            }),
            final(self).session.message_id == old(self).session.message_id,
    {
        let ghost buf0 = self.buffer@;
        let ghost p0 = self.session.phase;
        let ghost t0 = self.session.output_tokens as nat;
        let ghost id0 = self.session.message_id;
        proof {
            crate::frame_reader::lemma_split_rec_bounds(buf0, chunk@);
        }
        let ghost raw = split_rec(buf0, chunk@).0;
        let lines = self.buffer.feed(chunk);
        let mut out: Vec<OutEvent> = Vec::new();
        let mut li: usize = 0;
        proof {
            assert(raw.take(0) =~= Seq::<Seq<u8>>::empty());
        }
        while li < lines.len()
            invariant
                0 <= li <= lines@.len(),
                lines@.len() == raw.len(),
                raw.len() <= chunk@.len(),
                forall|i: int| 0 <= i < raw.len() ==> #[trigger] lines@[i]@ == trim(raw[i]),
                t0 + 2 * (buf0.len() + chunk@.len()) <= u64::MAX,
                ({
                    let m = model_observe_all(p0, t0, events_of_lines(raw.take(li as int)));
                    &&& self.session.phase == m.0
                    &&& self.session.output_tokens as nat == m.1
                    &&& out_views(out@) == m.2
                }),
                !(p0 is NotStarted),
                !(self.session.phase is NotStarted),
                self.session.message_id == id0,
                self.buffer@ == split_rec(buf0, chunk@).1,
            decreases lines@.len() - li,
        {
            let mut evs = parse_line(&lines[li]);
            let ghost line_evs = parse_line_spec(trim(raw[li as int]));
            proof {
                lemma_parse_line_bounds(trim(raw[li as int]));
                assert(backend_views(evs@).len() == line_evs.len());
                assert(backend_views(evs@).len() == evs@.len());
                assert(line_evs.skip(0) =~= line_evs);
            }
            let ghost mut ei: int = 0;
            proof {
                let pre = events_of_lines(raw.take(li as int));
                assert(pre + line_evs.take(0) =~= pre);
            }
            while evs.len() > 0
                invariant
                    0 <= ei <= line_evs.len(),
                    line_evs.len() <= 2,
                    evs@.len() == line_evs.len() - ei,
                    backend_views(evs@) == line_evs.skip(ei),
                    0 <= li < lines@.len(),
                    lines@.len() == raw.len(),
                    raw.len() <= chunk@.len(),
                    t0 + 2 * (buf0.len() + chunk@.len()) <= u64::MAX,
                    ({
                        let seen = events_of_lines(raw.take(li as int)) + line_evs.take(ei);
                        let m = model_observe_all(p0, t0, seen);
                        &&& self.session.phase == m.0
                        &&& self.session.output_tokens as nat == m.1
                        &&& out_views(out@) == m.2
                    }),
                    !(p0 is NotStarted),
                    !(self.session.phase is NotStarted),
                    self.session.message_id == id0,
                    self.buffer@ == split_rec(buf0, chunk@).1,
                decreases evs@.len(),
            {
                let ghost seen = events_of_lines(raw.take(li as int)) + line_evs.take(ei);
                proof {
                    lemma_events_of_lines_len(raw.take(li as int));
                    assert(raw.take(li as int).len() == li as int);
                    lemma_model_token_bound(p0, t0, seen);
                    assert(seen.len() <= 2 * li + ei);
                    assert(self.session.output_tokens < u64::MAX);
                }
                let ghost evs_pre = evs@;
                let ev = evs.remove(0);
                proof {
                    assert(backend_views(evs_pre)[0] == ev@);
                    assert(ev@ == line_evs[ei]);
                    assert(forall|k: int|
                        0 <= k < evs@.len() ==> evs@[k] == evs_pre[k + 1]);
                    assert forall|k: int| 0 <= k < evs@.len() implies backend_views(evs@)[k]
                        == line_evs.skip(ei + 1)[k] by {
                        assert(evs@[k] == evs_pre[k + 1]);
                        assert(backend_views(evs_pre)[k + 1] == evs_pre[k + 1]@);
                    }
                    assert(backend_views(evs@) =~= line_evs.skip(ei + 1));
                    lemma_model_observe_all_append(p0, t0, seen, seq![ev@]);
                    let m1 = model_observe_all(p0, t0, seen);
                    assert(seq![ev@].drop_first() =~= Seq::<BackendEventView>::empty());
                    let step = model_observe(m1.0, m1.1, ev@);
                    assert(model_observe_all(step.0, step.1, Seq::<BackendEventView>::empty()).2
                        =~= Seq::<OutEventView>::empty());
                    assert(model_observe_all(m1.0, m1.1, seq![ev@]).2 =~= step.2);
                    assert(seen + seq![ev@] =~= events_of_lines(raw.take(li as int))
                        + line_evs.take(ei + 1));
                }
                let mut step_out = self.session.observe(ev);
                proof {
                    let seen2 = events_of_lines(raw.take(li as int)) + line_evs.take(ei + 1);
                    let m2 = model_observe_all(p0, t0, seen2);
                    assert(out_views(out@ + step_out@) =~= out_views(out@) + out_views(
                        step_out@,
                    ));
                    assert(out_views(out@) + out_views(step_out@) =~= m2.2);
                }
                out.append(&mut step_out);
                proof {
                    ei = ei + 1;
                }
            }
            proof {
                assert(line_evs.take(line_evs.len() as int) =~= line_evs);
                lemma_events_of_lines_snoc(raw.take(li as int), raw[li as int]);
                assert(raw.take(li as int).push(raw[li as int]) =~= raw.take(li + 1));
            }
            li = li + 1;
        }
        proof {
            assert(raw.take(raw.len() as int) =~= raw);
        }
        out
    }

    /// Signals the end of the backend stream: closes the session if it was
    /// still open. A trailing partial line without terminator is discarded.
    pub fn finish(&mut self) -> (out: Vec<OutEvent>)
        requires
            old(self).wf(),
        ensures
            final(self).wf(),
            ({
                let m = model_finish(
                    old(self).session.phase,
                    old(self).session.output_tokens as nat,
                );
                &&& final(self).session.phase == m.0
                &&& out_views(out@) == m.1
            }),
            final(self).session.output_tokens == old(self).session.output_tokens,
            final(self).session.message_id == old(self).session.message_id,
            final(self).buffer@ == old(self).buffer@,
    {
        self.session.finish()
    }

    /// Signals a transport failure: emits one error event in place of the
    /// close triple, and nothing at all if the session already finished.
    pub fn fail(&mut self, message: String) -> (out: Vec<OutEvent>)
        requires
            old(self).wf(),
        ensures
            final(self).wf(),
            final(self).session.phase is Finished,
            old(self).session.phase is Streaming ==> out_views(out@) == seq![
                crate::events::OutEventView::Error { message: message@ },
            ],
            old(self).session.phase is Finished ==> out@.len() == 0,
            final(self).session.output_tokens == old(self).session.output_tokens,
            final(self).session.message_id == old(self).session.message_id,
    {
        self.session.fail(message)
    }
}

} // verus!
