use oxide_gate::events::OutEvent;
use oxide_gate::render::render_event;
use oxide_gate::translator::Translator;

#[test]
fn renders_message_start() {
    let (name, data) = render_event(&OutEvent::MessageStart {
        message_id: "msg_abc".to_string(),
    });
    assert_eq!(name, "message_start");
    assert_eq!(
        data,
        "{\"type\":\"message_start\",\"message\":{\"id\":\"msg_abc\",\"type\":\"message\",\
         \"role\":\"assistant\",\"model\":\"local-model\",\"content\":[],\
         \"stop_reason\":null,\"stop_sequence\":null,\"usage\":{\"input_tokens\":0,\
         \"output_tokens\":0}}}"
    );
}

#[test]
fn renders_fixed_events() {
    let (name, data) = render_event(&OutEvent::ContentBlockStart);
    assert_eq!(name, "content_block_start");
    assert_eq!(
        data,
        "{\"type\":\"content_block_start\",\"index\":0,\"content_block\":{\"type\":\"text\",\"text\":\"\"}}"
    );
    let (name, data) = render_event(&OutEvent::ContentBlockStop);
    assert_eq!(name, "content_block_stop");
    assert_eq!(data, "{\"type\":\"content_block_stop\",\"index\":0}");
    let (name, data) = render_event(&OutEvent::MessageStop);
    assert_eq!(name, "message_stop");
    assert_eq!(data, "{\"type\":\"message_stop\"}");
}

#[test]
fn renders_content_delta_with_escaping() {
    let (name, data) = render_event(&OutEvent::ContentDelta {
        text: "a \"quoted\"\nline\\with\tcontrol\u{1}".to_string(),
    });
    assert_eq!(name, "content_block_delta");
    assert_eq!(
        data,
        "{\"type\":\"content_block_delta\",\"index\":0,\"delta\":{\"type\":\"text_delta\",\
         \"text\":\"a \\\"quoted\\\"\\nline\\\\with\\tcontrol\\u0001\"}}"
    );
    // The rendered payload is valid JSON and round-trips the text.
    let v: serde_json::Value = serde_json::from_str(&data).expect("valid JSON");
    assert_eq!(
        v["delta"]["text"].as_str().unwrap(),
        "a \"quoted\"\nline\\with\tcontrol\u{1}"
    );
}

#[test]
fn renders_message_delta_with_usage() {
    let (name, data) = render_event(&OutEvent::MessageDelta {
        stop_reason: "end_turn".to_string(),
        output_tokens: 1234567890,
    });
    assert_eq!(name, "message_delta");
    assert_eq!(
        data,
        "{\"type\":\"message_delta\",\"delta\":{\"stop_reason\":\"end_turn\",\
         \"stop_sequence\":null},\"usage\":{\"output_tokens\":1234567890}}"
    );
}

#[test]
fn renders_error_event() {
    let (name, data) = render_event(&OutEvent::Error {
        message: "Stream error: broken pipe".to_string(),
    });
    assert_eq!(name, "error");
    assert_eq!(
        data,
        "{\"type\":\"error\",\"error\":{\"type\":\"api_error\",\"message\":\"Stream error: broken pipe\"}}"
    );
}

#[test]
fn usage_count_in_rendered_close_matches_deltas() {
    let (mut t, _) = Translator::with_message_id("msg_test".to_string());
    let mut out = t.push_chunk(
        b"data: {\"choices\":[{\"delta\":{\"content\":\"a\"}}]}\ndata: {\"choices\":[{\"delta\":{\"content\":\"b\"}}]}\ndata: {\"choices\":[{\"delta\":{\"content\":\"c\"}}]}\n",
    );
    out.extend(t.finish());
    let rendered: Vec<(String, String)> = out.iter().map(render_event).collect();
    let delta_count = rendered.iter().filter(|(n, _)| n == "content_block_delta").count();
    assert_eq!(delta_count, 3);
    let message_delta = rendered
        .iter()
        .find(|(n, _)| n == "message_delta")
        .expect("a message delta is owed");
    assert!(message_delta.1.contains("\"output_tokens\":3"));
}
