use oxide_gate::events::OutEvent;
use oxide_gate::translator::Translator;

fn names(evs: &[OutEvent]) -> Vec<&'static str> {
    evs.iter()
        .map(|e| match e {
            OutEvent::MessageStart { .. } => "message_start",
            OutEvent::ContentBlockStart => "content_block_start",
            OutEvent::ContentDelta { .. } => "content_block_delta",
            OutEvent::ContentBlockStop => "content_block_stop",
            OutEvent::MessageDelta { .. } => "message_delta",
            OutEvent::MessageStop => "message_stop",
            OutEvent::Error { .. } => "error",
        })
        .collect()
}

#[test]
fn start_pair_comes_first_and_once() {
    let (_t, out) = Translator::with_message_id("msg_test".to_string());
    assert_eq!(names(&out), vec!["message_start", "content_block_start"]);
    match &out[0] {
        OutEvent::MessageStart { message_id } => assert_eq!(message_id, "msg_test"),
        _ => panic!("expected message start first"),
    }
}

#[test]
fn full_session_matches_expected_sequence() {
    // The worked example: two deltas, a finish reason, then the sentinel.
    let (mut t, mut out) = Translator::with_message_id("msg_test".to_string());
    out.extend(t.push_chunk(b"data: {\"choices\":[{\"delta\":{\"content\":\"Hi\"}}]}\n"));
    out.extend(t.push_chunk(
        b"data: {\"choices\":[{\"delta\":{\"content\":\" there\"},\"finish_reason\":\"stop\"}]}\n",
    ));
    out.extend(t.push_chunk(b"data: [DONE]\n"));
    out.extend(t.finish());
    assert_eq!(
        names(&out),
        vec![
            "message_start",
            "content_block_start",
            "content_block_delta",
            "content_block_delta",
            "content_block_stop",
            "message_delta",
            "message_stop",
        ]
    );
    match &out[2] {
        OutEvent::ContentDelta { text } => assert_eq!(text, "Hi"),
        _ => panic!("expected a delta"),
    }
    match &out[3] {
        OutEvent::ContentDelta { text } => assert_eq!(text, " there"),
        _ => panic!("expected a delta"),
    }
    match &out[5] {
        OutEvent::MessageDelta { stop_reason, output_tokens } => {
            assert_eq!(stop_reason, "stop");
            assert_eq!(*output_tokens, 2);
        },
        _ => panic!("expected the message delta"),
    }
}

#[test]
fn chunk_boundaries_do_not_matter() {
    let whole = b"data: {\"choices\":[{\"delta\":{\"content\":\"Hello\"}}]}\ndata: [DONE]\n";
    let (mut a, _) = Translator::with_message_id("msg_a".to_string());
    let mut out_a = a.push_chunk(whole);
    out_a.extend(a.finish());
    let (mut b, _) = Translator::with_message_id("msg_b".to_string());
    let mut out_b = Vec::new();
    for piece in whole.chunks(7) {
        out_b.extend(b.push_chunk(piece));
    }
    out_b.extend(b.finish());
    assert_eq!(names(&out_a), names(&out_b));
    match (&out_a[0], &out_b[0]) {
        (OutEvent::ContentDelta { text: ta }, OutEvent::ContentDelta { text: tb }) => {
            assert_eq!(ta, "Hello");
            assert_eq!(tb, "Hello");
        },
        _ => panic!("expected deltas"),
    }
}

#[test]
fn done_sentinel_closes_immediately_without_finish_reason() {
    let (mut t, _) = Translator::with_message_id("msg_test".to_string());
    let mut out = t.push_chunk(b"data: {\"choices\":[{\"delta\":{\"content\":\"x\"}}]}\n");
    out.extend(t.push_chunk(b"data: [DONE]\n"));
    assert_eq!(names(&out), vec!["content_block_delta", "content_block_stop", "message_delta",
        "message_stop"]);
    match &out[2] {
        OutEvent::MessageDelta { stop_reason, output_tokens } => {
            assert_eq!(stop_reason, "end_turn");
            assert_eq!(*output_tokens, 1);
        },
        _ => panic!("expected the message delta"),
    }
    // Everything after the sentinel is ignored, and finishing adds nothing.
    let late = t.push_chunk(b"data: {\"choices\":[{\"delta\":{\"content\":\"y\"}}]}\n");
    assert_eq!(late.len(), 0);
    assert_eq!(t.finish().len(), 0);
}

#[test]
fn empty_content_deltas_still_count() {
    let (mut t, _) = Translator::with_message_id("msg_test".to_string());
    let mut out = t.push_chunk(b"data: {\"choices\":[{\"delta\":{\"content\":\"\"}}]}\n");
    out.extend(t.push_chunk(b"data: {\"choices\":[{\"delta\":{\"content\":\"\"}}]}\n"));
    out.extend(t.finish());
    assert_eq!(names(&out), vec!["content_block_delta", "content_block_delta",
        "content_block_stop", "message_delta", "message_stop"]);
    match &out[3] {
        OutEvent::MessageDelta { output_tokens, .. } => assert_eq!(*output_tokens, 2),
        _ => panic!("expected the message delta"),
    }
}

#[test]
fn invalid_json_line_changes_nothing() {
    let (mut t, _) = Translator::with_message_id("msg_test".to_string());
    let out = t.push_chunk(b"data: {not json\n");
    assert_eq!(out.len(), 0);
    assert_eq!(t.session.output_tokens, 0);
    let out = t.finish();
    match &out[1] {
        OutEvent::MessageDelta { output_tokens, .. } => assert_eq!(*output_tokens, 0),
        _ => panic!("expected the message delta"),
    }
}

#[test]
fn transport_failure_emits_single_error_event() {
    let (mut t, _) = Translator::with_message_id("msg_test".to_string());
    let _ = t.push_chunk(b"data: {\"choices\":[{\"delta\":{\"content\":\"x\"}}]}\n");
    let out = t.fail("Stream error: connection reset".to_string());
    assert_eq!(names(&out), vec!["error"]);
    match &out[0] {
        OutEvent::Error { message } => assert_eq!(message, "Stream error: connection reset"),
        _ => panic!("expected the error event"),
    }
    // The error substitutes for the close sequence; nothing follows it.
    assert_eq!(t.finish().len(), 0);
    assert_eq!(t.fail("again".to_string()).len(), 0);
}

#[test]
fn trailing_partial_line_is_discarded() {
    let (mut t, _) = Translator::with_message_id("msg_test".to_string());
    let out = t.push_chunk(b"data: {\"choices\":[{\"delta\":{\"content\":\"x\"}}]}");
    assert_eq!(out.len(), 0, "no terminator was seen, so no line is complete");
    let out = t.finish();
    match &out[1] {
        OutEvent::MessageDelta { output_tokens, .. } => assert_eq!(*output_tokens, 0),
        _ => panic!("expected the message delta"),
    }
}

#[test]
fn generated_message_ids_have_the_documented_shape() {
    let (t, _) = Translator::new();
    let id = &t.session.message_id;
    assert_eq!(id.chars().count(), 40);
    assert!(id.starts_with("msg_"));
    let (t2, _) = Translator::new();
    assert_ne!(id, &t2.session.message_id);
}
