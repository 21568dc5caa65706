use anychat_capture::adapters::extract_delta;
use anychat_capture::adapters::extract_envelope;
use anychat_capture::adapters::extract_generic;
use anychat_capture::adapters::extract_history;
use anychat_capture::adapters::extract_snapshot;
use anychat_capture::decode::DecodedEvent;
use anychat_capture::json::parse_json;
use anychat_capture::msg::Role;
use anychat_capture::msg::Source;

fn data_event(text: &str) -> DecodedEvent {
    DecodedEvent::Data(parse_json(text.as_bytes()).expect("event payload must parse"))
}

#[test]
fn user_message_precedes_assistant_snapshot() {
    let events = vec![data_event(
        "{\"message\":{\"author\":{\"role\":\"assistant\"},\"content\":{\"parts\":[\"Hi there\"]}}}",
    )];
    let body = "{\"messages\":[{\"content\":{\"parts\":[\"Hello\"]}}]}";
    let msgs = extract_snapshot(&events, Some(body), 1000);
    assert_eq!(msgs.len(), 2);
    assert_eq!(msgs[0].role, Role::User);
    assert_eq!(msgs[0].content, "Hello");
    assert_eq!(msgs[1].role, Role::Assistant);
    assert_eq!(msgs[1].content, "Hi there");
    assert!(msgs[0].timestamp < msgs[1].timestamp);
}

#[test]
fn last_snapshot_wins() {
    let mk = |text: &str| {
        data_event(&format!(
            "{{\"message\":{{\"author\":{{\"role\":\"assistant\"}},\"content\":{{\"parts\":[\"{}\"]}}}}}}",
            text
        ))
    };
    let events = vec![mk("H"), mk("He"), mk("Hello")];
    let msgs = extract_snapshot(&events, None, 7);
    assert_eq!(msgs.len(), 1);
    assert_eq!(msgs[0].role, Role::Assistant);
    assert_eq!(msgs[0].content, "Hello");
}

#[test]
fn snapshot_keeps_ids_and_conversation() {
    let events = vec![data_event(
        "{\"conversation_id\":\"c-1\",\"message\":{\"id\":\"m-9\",\"author\":{\"role\":\"assistant\"},\"content\":{\"parts\":[\"Hi\"]}}}",
    )];
    let msgs = extract_snapshot(&events, None, 5);
    assert_eq!(msgs.len(), 1);
    assert_eq!(msgs[0].external_id.as_deref(), Some("m-9"));
    assert_eq!(msgs[0].conversation_id.as_deref(), Some("c-1"));
    assert_eq!(msgs[0].source, Source::Api);
}

#[test]
fn snapshot_empty_parts_yield_nothing() {
    let events = vec![data_event(
        "{\"message\":{\"author\":{\"role\":\"assistant\"},\"content\":{\"parts\":[\"  \"]}}}",
    )];
    let msgs = extract_snapshot(&events, None, 5);
    assert_eq!(msgs.len(), 0);
}

#[test]
fn delta_accumulation_concatenates_in_order() {
    let events = vec![
        data_event("{\"completion\":\"H\"}"),
        data_event("{\"completion\":\"e\"}"),
        data_event("{\"completion\":\"llo\"}"),
    ];
    let msgs = extract_delta(&events, None, 3);
    assert_eq!(msgs.len(), 1);
    assert_eq!(msgs[0].role, Role::Assistant);
    assert_eq!(msgs[0].content, "Hello");
}

#[test]
fn delta_takes_prompt_and_conversation_from_request() {
    let events = vec![
        data_event("{\"delta\":{\"text\":\"An\"}}"),
        data_event("{\"content_block\":{\"text\":\"swer\"}}"),
    ];
    let body = "{\"prompt\":\" ask \",\"conversation_uuid\":\"u-7\"}";
    let msgs = extract_delta(&events, Some(body), 10);
    assert_eq!(msgs.len(), 2);
    assert_eq!(msgs[0].role, Role::User);
    assert_eq!(msgs[0].content, "ask");
    assert_eq!(msgs[0].timestamp, 9);
    assert_eq!(msgs[1].role, Role::Assistant);
    assert_eq!(msgs[1].content, "Answer");
    assert_eq!(msgs[1].conversation_id.as_deref(), Some("u-7"));
}

#[test]
fn generic_delta_shapes() {
    let events = vec![
        data_event("{\"choices\":[{\"delta\":{\"content\":\"a\"}}]}"),
        data_event("{\"message\":{\"content\":\"b\"}}"),
        data_event("{\"text\":\"c\"}"),
        data_event("{\"content\":\"d\"}"),
        DecodedEvent::Done,
    ];
    let msgs = extract_generic(&events, 0);
    assert_eq!(msgs.len(), 1);
    assert_eq!(msgs[0].content, "abcd");
}

#[test]
fn history_orders_by_creation_time() {
    let body = "{\"conversation_id\":\"cv\",\"mapping\":{\"n1\":{\"message\":{\"id\":\"b\",\"create_time\":2.5,\"author\":{\"role\":\"assistant\"},\"content\":{\"parts\":[\"second\"]}}},\"n2\":{\"message\":{\"id\":\"a\",\"create_time\":1,\"author\":{\"role\":\"user\"},\"content\":{\"parts\":[\"first\"]}}}}}";
    let doc = parse_json(body.as_bytes()).unwrap();
    let msgs = extract_history(&doc, 99);
    assert_eq!(msgs.len(), 2);
    assert_eq!(msgs[0].content, "first");
    assert_eq!(msgs[0].timestamp, 1000);
    assert_eq!(msgs[1].content, "second");
    assert_eq!(msgs[1].timestamp, 2500);
    assert_eq!(msgs[0].conversation_id.as_deref(), Some("cv"));
    assert_eq!(msgs[1].source, Source::History);
}

#[test]
fn history_skips_other_roles_and_empty_text() {
    let body = "{\"mapping\":{\"n1\":{\"message\":{\"author\":{\"role\":\"system\"},\"content\":{\"parts\":[\"x\"]}}},\"n2\":{\"message\":{\"author\":{\"role\":\"user\"},\"content\":{\"parts\":[\" \"]}}},\"n3\":{\"message\":null}}}";
    let doc = parse_json(body.as_bytes()).unwrap();
    let msgs = extract_history(&doc, 99);
    assert_eq!(msgs.len(), 0);
}

#[test]
fn envelope_extracts_nested_answer() {
    let inner = "[null,null,null,null,[[null,[\"The answer\"]]]]";
    let outer = format!(
        ")]}}'\n[[\"wrb.fr\",null,{}]]",
        serde_json::to_string(inner).unwrap()
    );
    let msgs = extract_envelope(&outer.into_bytes(), 4);
    assert_eq!(msgs.len(), 1);
    assert_eq!(msgs[0].role, Role::Assistant);
    assert_eq!(msgs[0].content, "The answer");
}

#[test]
fn envelope_malformed_yields_nothing() {
    let msgs = extract_envelope(&b")]}'\nnot json".to_vec(), 4);
    assert_eq!(msgs.len(), 0);
}

#[test]
fn history_equal_times_keep_entry_order() {
    let body = "{\"mapping\":{\"n1\":{\"message\":{\"id\":\"x\",\"create_time\":5,\"author\":{\"role\":\"user\"},\"content\":{\"parts\":[\"one\"]}}},\"n2\":{\"message\":{\"id\":\"y\",\"create_time\":5,\"author\":{\"role\":\"assistant\"},\"content\":{\"parts\":[\"two\"]}}}}}";
    let doc = parse_json(body.as_bytes()).unwrap();
    let msgs = extract_history(&doc, 0);
    assert_eq!(msgs.len(), 2);
    assert_eq!(msgs[0].content, "one");
    assert_eq!(msgs[1].content, "two");
}
