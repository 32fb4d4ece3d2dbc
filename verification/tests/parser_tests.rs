use oxide_gate::events::BackendEvent;
use oxide_gate::parser::{classify_payload, has_data_prefix, is_done_sentinel, parse_line};

fn line(s: &str) -> Vec<u8> {
    s.as_bytes().to_vec()
}

#[test]
fn ignores_lines_without_prefix() {
    assert_eq!(parse_line(&line("")).len(), 0);
    assert_eq!(parse_line(&line(": comment")).len(), 0);
    assert_eq!(parse_line(&line("event: ping")).len(), 0);
    assert_eq!(parse_line(&line("data:")).len(), 0);
}

#[test]
fn recognizes_done_sentinel() {
    let evs = parse_line(&line("data: [DONE]"));
    assert_eq!(evs.len(), 1);
    assert!(matches!(evs[0], BackendEvent::SentinelDone));
    let evs = parse_line(&line("data:   [DONE]  "));
    assert_eq!(evs.len(), 1);
    assert!(matches!(evs[0], BackendEvent::SentinelDone));
}

#[test]
fn extracts_text_delta() {
    let evs = parse_line(&line("data: {\"choices\":[{\"delta\":{\"content\":\"Hi\"}}]}"));
    assert_eq!(evs.len(), 1);
    match &evs[0] {
        BackendEvent::TextDelta(s) => assert_eq!(s, "Hi"),
        _ => panic!("expected a text delta"),
    }
}

#[test]
fn empty_content_is_still_a_delta() {
    let evs = parse_line(&line("data: {\"choices\":[{\"delta\":{\"content\":\"\"}}]}"));
    assert_eq!(evs.len(), 1);
    match &evs[0] {
        BackendEvent::TextDelta(s) => assert_eq!(s, ""),
        _ => panic!("expected a text delta"),
    }
}

#[test]
fn invalid_json_is_skipped_silently() {
    let evs = parse_line(&line("data: {not json"));
    assert_eq!(evs.len(), 1);
    assert!(matches!(evs[0], BackendEvent::Malformed));
}

#[test]
fn missing_content_field_is_malformed() {
    let evs = parse_line(&line("data: {\"choices\":[{\"delta\":{}}]}"));
    assert_eq!(evs.len(), 1);
    assert!(matches!(evs[0], BackendEvent::Malformed));
    let evs = parse_line(&line("data: {\"choices\":[{\"delta\":{\"content\":7}}]}"));
    assert_eq!(evs.len(), 1);
    assert!(matches!(evs[0], BackendEvent::Malformed));
}

#[test]
fn finish_reason_terminates() {
    let evs = parse_line(&line(
        "data: {\"choices\":[{\"delta\":{\"content\":\" there\"},\"finish_reason\":\"stop\"}]}",
    ));
    assert_eq!(evs.len(), 2);
    match &evs[0] {
        BackendEvent::TextDelta(s) => assert_eq!(s, " there"),
        _ => panic!("expected a text delta first"),
    }
    match &evs[1] {
        BackendEvent::StreamTerminated(Some(r)) => assert_eq!(r, "stop"),
        _ => panic!("expected a termination second"),
    }
}

#[test]
fn null_or_empty_finish_reason_is_filtered() {
    let evs = parse_line(&line("data: {\"choices\":[{\"finish_reason\":\"null\"}]}"));
    assert_eq!(evs.len(), 1);
    assert!(matches!(evs[0], BackendEvent::Malformed));
    let evs = parse_line(&line("data: {\"choices\":[{\"finish_reason\":\"\"}]}"));
    assert_eq!(evs.len(), 1);
    assert!(matches!(evs[0], BackendEvent::Malformed));
}

#[test]
fn classify_payload_combines_fields() {
    let evs = classify_payload(Some("x".to_string()), Some("length".to_string()));
    assert_eq!(evs.len(), 2);
    assert!(matches!(&evs[0], BackendEvent::TextDelta(s) if s == "x"));
    assert!(matches!(&evs[1], BackendEvent::StreamTerminated(Some(r)) if r == "length"));
    let evs = classify_payload(None, None);
    assert_eq!(evs.len(), 1);
    assert!(matches!(evs[0], BackendEvent::Malformed));
}

#[test]
fn prefix_and_sentinel_checks() {
    assert!(has_data_prefix(&line("data: x")));
    assert!(!has_data_prefix(&line("data:x")));
    assert!(!has_data_prefix(&line("dat")));
    assert!(is_done_sentinel(&line("[DONE]")));
    assert!(!is_done_sentinel(&line("[DONE] ")));
    assert!(!is_done_sentinel(&line("[done]")));
}
