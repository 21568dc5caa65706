use anychat_capture::agent::DeliveryChannel;
use anychat_capture::agent::DomItem;
use anychat_capture::agent::PageAgent;
use anychat_capture::msg::CapturedMessage;
use anychat_capture::msg::Role;
use anychat_capture::msg::Source;
use anychat_capture::service::ServiceKind;

fn msg(content: &str, external_id: Option<&str>) -> CapturedMessage {
    CapturedMessage {
        role: Role::Assistant,
        content: content.to_string(),
        external_id: external_id.map(|s| s.to_string()),
        conversation_id: None,
        source: Source::Api,
        timestamp: 1,
    }
}

#[test]
fn agent_selects_adapter_and_table_by_hostname() {
    let a = PageAgent::new("chatgpt.com");
    assert_eq!(a.kind(), Some(ServiceKind::ChatGpt));
    assert!(a.has_dom_table());
    let b = PageAgent::new("poe.com");
    assert_eq!(b.kind(), None);
    assert!(b.has_dom_table());
    let c = PageAgent::new("example.com");
    assert_eq!(c.kind(), None);
    assert!(!c.has_dom_table());
}

#[test]
fn enqueue_dedups_by_key_per_page_lifetime() {
    let mut a = PageAgent::new("chatgpt.com");
    assert!(a.enqueue_messages(None, vec![msg("Hi", Some("m-1"))]));
    assert_eq!(a.queue_len(), 1);
    assert!(!a.enqueue_messages(None, vec![msg("Hi", Some("m-1"))]));
    assert_eq!(a.queue_len(), 1);
    assert!(a.enqueue_messages(None, vec![msg("Other", Some("m-2"))]));
    assert_eq!(a.queue_len(), 2);
}

#[test]
fn dom_pass_twice_captures_nothing_new() {
    let mut a = PageAgent::new("chatgpt.com");
    let items = vec![
        DomItem { role: Role::User, content: " question ".to_string() },
        DomItem { role: Role::Assistant, content: "answer".to_string() },
        DomItem { role: Role::Unknown, content: "noise".to_string() },
        DomItem { role: Role::User, content: "   ".to_string() },
    ];
    let first = a.dom_pass(None, &items, 10);
    assert_eq!(first, 2);
    assert_eq!(a.queue_len(), 1);
    let second = a.dom_pass(None, &items, 20);
    assert_eq!(second, 0);
    assert_eq!(a.queue_len(), 1);
}

#[test]
fn dom_pass_stands_down_while_network_capture_is_active() {
    let mut a = PageAgent::new("chatgpt.com");
    a.set_net_active();
    let items = vec![DomItem { role: Role::User, content: "q".to_string() }];
    assert_eq!(a.dom_pass(None, &items, 10), 0);
    assert_eq!(a.queue_len(), 0);
}

#[test]
fn dom_pass_needs_a_selector_table_entry() {
    let mut a = PageAgent::new("example.com");
    let items = vec![DomItem { role: Role::User, content: "q".to_string() }];
    assert_eq!(a.dom_pass(None, &items, 10), 0);
}

#[test]
fn failed_delivery_keeps_the_batch_at_the_head() {
    let mut a = PageAgent::new("chatgpt.com");
    a.enqueue_messages(None, vec![msg("one", Some("1"))]);
    a.enqueue_messages(None, vec![msg("two", Some("2"))]);
    assert_eq!(a.queue_len(), 2);
    let head = a.next_batch().unwrap().messages[0].content.clone();
    a.on_delivery(false);
    assert_eq!(a.queue_len(), 2);
    assert_eq!(a.next_batch().unwrap().messages[0].content, head);
    a.on_delivery(true);
    assert_eq!(a.queue_len(), 1);
    assert_eq!(a.next_batch().unwrap().messages[0].content, "two");
}

#[test]
fn intercepted_response_feeds_the_queue_and_quiets_dom() {
    let mut a = PageAgent::new("chatgpt.com");
    let chunks: Vec<Vec<u8>> = vec![
        b"data: {\"message\":{\"id\":\"m-1\",\"author\":{\"role\":\"assistant\"},\"content\":{\"parts\":[\"Hi\"]}}}\n"
            .to_vec(),
    ];
    let page = "https://chatgpt.com/c/1".to_string();
    let queued = a.on_response(
        "https://chatgpt.com/backend-api/conversation",
        "text/event-stream",
        None,
        &chunks,
        Some(&page),
        77,
    );
    assert!(queued);
    assert!(a.net_active());
    assert_eq!(a.queue_len(), 1);
    let batch = a.next_batch().unwrap();
    assert_eq!(batch.service_id, "chatgpt.com");
    assert_eq!(batch.url.as_deref(), Some("https://chatgpt.com/c/1"));
    assert_eq!(batch.messages[0].content, "Hi");

    let items = vec![DomItem { role: Role::Assistant, content: "Hi".to_string() }];
    assert_eq!(a.dom_pass(Some(&page), &items, 80), 0);

    let again = a.on_response(
        "https://chatgpt.com/backend-api/conversation",
        "text/event-stream",
        None,
        &chunks,
        Some(&page),
        99,
    );
    assert!(!again);
    assert_eq!(a.queue_len(), 1);
}

#[test]
fn host_named_adapter_captures_a_delta_round_trip() {
    let mut a = PageAgent::with_kind("chat.example.com", Some(ServiceKind::DeltaPrompt), true);
    assert_eq!(a.kind(), Some(ServiceKind::DeltaPrompt));
    assert!(a.has_dom_table());
    let chunks: Vec<Vec<u8>> = vec![
        b"data: {\"completion\":\"An\"}\ndata: {\"completion\":\"swer\"}\n".to_vec(),
    ];
    let queued = a.on_response(
        "https://chat.example.com/api/organizations/o1/chat_conversations/c1/completion",
        "text/event-stream",
        Some("{\"prompt\":\"ask\",\"conversation_uuid\":\"u-1\"}"),
        &chunks,
        None,
        500,
    );
    assert!(queued);
    let batch = a.next_batch().unwrap();
    assert_eq!(batch.messages.len(), 2);
    assert_eq!(batch.messages[0].role, Role::User);
    assert_eq!(batch.messages[0].content, "ask");
    assert_eq!(batch.messages[1].role, Role::Assistant);
    assert_eq!(batch.messages[1].content, "Answer");
}

#[test]
fn unwatched_or_unmatched_responses_queue_nothing() {
    let mut a = PageAgent::new("example.com");
    let chunks: Vec<Vec<u8>> = vec![b"data: {\"text\":\"x\"}\n".to_vec()];
    assert!(!a.on_response("https://example.com/api/x", "text/event-stream", None, &chunks, None, 1));
    assert_eq!(a.queue_len(), 0);

    let mut b = PageAgent::new("chatgpt.com");
    assert!(!b.on_response(
        "https://chatgpt.com/backend-api/settings",
        "text/event-stream",
        None,
        &chunks,
        None,
        1
    ));
    assert!(!b.net_active());
}

#[test]
fn channel_preference_order() {
    let c = DeliveryChannel::first();
    assert_eq!(c, DeliveryChannel::Direct);
    assert_eq!(c.fallback(), Some(DeliveryChannel::CustomScheme));
    assert_eq!(
        DeliveryChannel::CustomScheme.fallback(),
        Some(DeliveryChannel::LoopbackHttp)
    );
    assert_eq!(DeliveryChannel::LoopbackHttp.fallback(), None);
    assert_eq!(DeliveryChannel::ImageBeacon.fallback(), None);
}

#[test]
fn drain_empties_the_queue_into_beacon_payloads() {
    let mut a = PageAgent::new("chatgpt.com");
    a.enqueue_messages(None, vec![msg("hi there", Some("m-1"))]);
    let payloads = a.drain_beacon_payloads(1234);
    assert_eq!(payloads.len(), 1);
    assert_eq!(a.queue_len(), 0);
    let decoded = urlencoding::decode(&payloads[0]).unwrap();
    let v: serde_json::Value = serde_json::from_str(&decoded).unwrap();
    assert_eq!(v["s"], "chatgpt.com");
    assert_eq!(v["r"], "assistant");
    assert_eq!(v["c"], "hi there");
    assert_eq!(v["t"], 1234);
}

#[test]
fn drain_truncates_long_content() {
    let mut a = PageAgent::new("chatgpt.com");
    let long = "x".repeat(1600);
    a.enqueue_messages(None, vec![msg(&long, Some("m-1"))]);
    let payloads = a.drain_beacon_payloads(5);
    let decoded = urlencoding::decode(&payloads[0]).unwrap();
    let v: serde_json::Value = serde_json::from_str(&decoded).unwrap();
    assert_eq!(v["c"].as_str().unwrap().len(), 1500);
}

#[test]
fn drained_messages_do_not_requeue() {
    let mut a = PageAgent::new("chatgpt.com");
    a.enqueue_messages(None, vec![msg("once", Some("m-1"))]);
    let _ = a.drain_beacon_payloads(5);
    assert!(!a.enqueue_messages(None, vec![msg("once", Some("m-1"))]));
    assert_eq!(a.queue_len(), 0);
}
