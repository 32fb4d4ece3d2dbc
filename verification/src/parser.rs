//! Classification of one complete backend line.
//!
//! A line is either ignorable (it does not carry the event-payload prefix),
//! the terminal sentinel, or a JSON payload from which an incremental text
//! fragment and an optional completion reason are read. What the JSON
//! decoder returns for a payload is named by [`payload_fields`]; everything
//! around that call is verified against [`parse_line_spec`].

use vstd::prelude::*;

use crate::events::{backend_views, BackendEvent, BackendEventView};
use crate::frame_reader::trim;

verus! {

/// The event-payload prefix `"data: "` as bytes.
pub open spec fn data_prefix() -> Seq<u8> {
    seq![100u8, 97u8, 116u8, 97u8, 58u8, 32u8]
}

/// The terminal sentinel `"[DONE]"` as bytes.
pub open spec fn done_sentinel() -> Seq<u8> {
    seq![91u8, 68u8, 79u8, 78u8, 69u8, 93u8]
}

/// What the JSON decoder reads out of a payload: the incremental text at
/// `choices[0].delta.content` and the completion reason at
/// `choices[0].finish_reason`, each absent when the payload does not decode
/// or lacks the field as a string. A function of the payload bytes alone.
pub uninterp spec fn payload_fields(payload: Seq<u8>) -> (Option<Seq<char>>, Option<Seq<char>>);

/// The view of an optional owned string.
pub open spec fn opt_view(o: Option<String>) -> Option<Seq<char>> {
    match o {
        Some(s) => Some(s@),
        None => None,
    }
}

/// A completion reason counts only when it is present, non-empty and not the
/// literal string `"null"`.
pub open spec fn valid_reason(reason: Option<Seq<char>>) -> bool {
    match reason {
        Some(r) => r.len() > 0 && r != "null"@,
        None => false,
    }
}

/// The backend events that one decoded payload stands for: a text delta when
/// content is present, then a termination when a valid reason is present;
/// a payload carrying neither is malformed and skipped.
pub open spec fn payload_events_of(
    content: Option<Seq<char>>,
    reason: Option<Seq<char>>,
) -> Seq<BackendEventView> {
    let deltas: Seq<BackendEventView> = match content {
        Some(c) => seq![BackendEventView::TextDelta(c)],
        None => Seq::<BackendEventView>::empty(),
    };
    let terms: Seq<BackendEventView> = match reason {
        Some(r) => if valid_reason(Some(r)) {
            seq![BackendEventView::StreamTerminated(Some(r))]
        } else {
            Seq::<BackendEventView>::empty()
        },
        None => Seq::<BackendEventView>::empty(),
    };
    if deltas.len() + terms.len() == 0 {
        seq![BackendEventView::Malformed]
    } else {
        deltas + terms
    }
}

/// What one complete, trimmed line means.
pub open spec fn parse_line_spec(line: Seq<u8>) -> Seq<BackendEventView> {
    if !(line.len() >= 6 && line.subrange(0, 6) == data_prefix()) {
        Seq::<BackendEventView>::empty()
    } else {
        let payload = line.skip(6);
        if trim(payload) == done_sentinel() {
            seq![BackendEventView::SentinelDone]
        } else {
            payload_events_of(payload_fields(payload).0, payload_fields(payload).1)
        }
    }
}

/// Relies on `serde_json::from_slice` and `serde_json::Value::{get, as_str}`:
/// decodes the payload as JSON and reads `choices[0].delta.content` and
/// `choices[0].finish_reason` as owned strings; a payload that does not
/// decode yields neither. The result depends on the payload bytes alone.
#[verifier::external_body]
fn extract_payload(payload: &Vec<u8>) -> (r: (Option<String>, Option<String>))
    ensures
        opt_view(r.0) == payload_fields(payload@).0,
        opt_view(r.1) == payload_fields(payload@).1,
{
    let v: serde_json::Value = match serde_json::from_slice(payload.as_slice()) {
        Ok(v) => v,
        Err(_) => return (None, None),
    };
    let first = v.get("choices").and_then(|c| c.get(0));
    let content = first
        .and_then(|c| c.get("delta"))
        .and_then(|d| d.get("content"))
        .and_then(|c| c.as_str())
        .map(|s| s.to_owned());
    let reason = first
        .and_then(|c| c.get("finish_reason"))
        .and_then(|f| f.as_str())
        .map(|s| s.to_owned());
    (content, reason)
}

/// Turns the two fields read from a decoded payload into backend events,
/// applying the reason filter (non-empty, not the literal `"null"`).
pub fn classify_payload(content: Option<String>, reason: Option<String>) -> (evs: Vec<
    BackendEvent,
>)
    ensures
        backend_views(evs@) == payload_events_of(opt_view(content), opt_view(reason)),
{
    let ghost c0 = opt_view(content);
    let ghost r0 = opt_view(reason);
    let mut evs: Vec<BackendEvent> = Vec::new();
    match content {
        Some(s) => {
            evs.push(BackendEvent::TextDelta(s));
        },
        None => {},
    }
    match reason {
        Some(r) => {
            let null_literal = String::from_str("null");
            if !r.as_str().is_empty() && !(r == null_literal) {
                evs.push(BackendEvent::StreamTerminated(Some(r)));
            }
        },
        None => {},
    }
    if evs.len() == 0 {
        evs.push(BackendEvent::Malformed);
    }
    proof {
        assert(backend_views(evs@) =~= payload_events_of(c0, r0));
    }
    evs
}

/// Whether the line starts with the event-payload prefix `"data: "`.
pub fn has_data_prefix(line: &Vec<u8>) -> (r: bool)
    ensures
        r == (line@.len() >= 6 && line@.subrange(0, 6) == data_prefix()),
{
    let r = line.len() >= 6 && line[0] == 100 && line[1] == 97 && line[2] == 116 && line[3]
        == 97 && line[4] == 58 && line[5] == 32;
    proof {
        if r {
            assert(line@.subrange(0, 6) =~= data_prefix());
        } else if line@.len() >= 6 {
            assert(line@.subrange(0, 6)[0] == line@[0]);
            assert(line@.subrange(0, 6)[1] == line@[1]);
            assert(line@.subrange(0, 6)[2] == line@[2]);
            assert(line@.subrange(0, 6)[3] == line@[3]);
            assert(line@.subrange(0, 6)[4] == line@[4]);
            assert(line@.subrange(0, 6)[5] == line@[5]);
        }
    }
    r
}

/// Whether the trimmed payload is exactly the terminal sentinel.
pub fn is_done_sentinel(t: &Vec<u8>) -> (r: bool)
    ensures
        r == (t@ == done_sentinel()),
{
    let r = t.len() == 6 && t[0] == 91 && t[1] == 68 && t[2] == 79 && t[3] == 78 && t[4]
        == 69 && t[5] == 93;
    proof {
        if r {
            assert(t@ =~= done_sentinel());
        } else {
            if t@ == done_sentinel() {
                assert(t@.len() == 6);
                assert(t@[0] == 91 && t@[1] == 68 && t@[2] == 79 && t@[3] == 78 && t@[4]
                    == 69 && t@[5] == 93);
            }
        }
    }
    r
}

/// Copies `v[from..to]` out into a fresh vector.
pub fn byte_range(v: &Vec<u8>, from: usize, to: usize) -> (r: Vec<u8>)
    requires
        from <= to <= v@.len(),
    ensures
        r@ == v@.subrange(from as int, to as int),
{
    let mut r: Vec<u8> = Vec::new();
    let mut j: usize = from;
    while j < to
        invariant
            from <= j <= to <= v@.len(),
            r@ == v@.subrange(from as int, j as int),
        decreases to - j,
    {
        r.push(v[j]);
        proof {
            assert(v@.subrange(from as int, j + 1) =~= v@.subrange(from as int, j as int).push(
                v@[j as int],
            ));
        }
        j = j + 1;
    }
    r
}

/// Classifies one complete, trimmed line into the backend events it carries.
pub fn parse_line(line: &Vec<u8>) -> (evs: Vec<BackendEvent>)
    ensures
        backend_views(evs@) == parse_line_spec(line@),
{
    if !has_data_prefix(line) {
        let evs: Vec<BackendEvent> = Vec::new();
        proof {
            assert(backend_views(evs@) =~= Seq::<BackendEventView>::empty());
        }
        return evs;
    }
    let payload = byte_range(line, 6, line.len());
    proof {
        assert(payload@ =~= line@.skip(6));
    }
    let trimmed = crate::frame_reader::trim_bytes(&payload);
    if is_done_sentinel(&trimmed) {
        let mut evs: Vec<BackendEvent> = Vec::new();
        evs.push(BackendEvent::SentinelDone);
        proof {
            assert(backend_views(evs@) =~= seq![BackendEventView::SentinelDone]);
        }
        return evs;
    }
    let (content, reason) = extract_payload(&payload);
    classify_payload(content, reason)
}

/// At most two backend events come out of one line.
pub proof fn lemma_parse_line_bounds(line: Seq<u8>)
    ensures
        parse_line_spec(line).len() <= 2,
{
}

} // verus!
