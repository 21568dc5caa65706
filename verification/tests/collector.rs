use anychat_capture::collector::Collector;
use anychat_capture::msg::CaptureBatch;
use anychat_capture::msg::CapturedMessage;
use anychat_capture::msg::Role;
use anychat_capture::msg::Source;

const TS: &str = "2024-01-02T03:04:05.678+00:00";

fn one_message_body(external_id: &str) -> Vec<u8> {
    format!(
        "{{\"serviceId\":\"chatgpt.com\",\"url\":\"https://chatgpt.com/\",\"messages\":[{{\"role\":\"assistant\",\"content\":\"Hi\",\"externalId\":\"{}\",\"source\":\"api\"}}]}}",
        external_id
    )
    .into_bytes()
}

#[test]
fn dedup_idempotence_across_transports() {
    let mut c = Collector::new();
    let body = one_message_body("m-1");
    let first = c.handle_capture_at(&body, Source::Http, TS);
    assert_eq!(first.status, 200);
    assert_eq!(first.stored.len(), 1);
    assert_eq!(c.log_len(), 1);

    let second = c.handle_scheme_at("/capture", &body, TS);
    assert_eq!(second.status, 200);
    assert_eq!(second.stored.len(), 0);
    assert_eq!(c.log_len(), 1);
}

#[test]
fn malformed_body_yields_400_and_no_lines() {
    let mut c = Collector::new();
    let r = c.handle_capture_at(b"not json", Source::Http, TS);
    assert_eq!(r.status, 400);
    assert_eq!(c.log_len(), 0);
}

#[test]
fn ill_typed_payload_yields_400() {
    let mut c = Collector::new();
    let r = c.handle_capture_at(b"{\"serviceId\":5,\"messages\":[]}", Source::Http, TS);
    assert_eq!(r.status, 400);
    let r2 = c.handle_capture_at(
        b"{\"serviceId\":\"s\",\"messages\":[{\"role\":1,\"content\":\"x\"}]}",
        Source::Http,
        TS,
    );
    assert_eq!(r2.status, 400);
    let r3 = c.handle_capture_at(b"{\"serviceId\":\"s\"}", Source::Http, TS);
    assert_eq!(r3.status, 400);
    assert_eq!(c.log_len(), 0);
}

#[test]
fn unknown_extra_fields_are_accepted() {
    let mut c = Collector::new();
    let body = b"{\"type\":\"capture\",\"extra\":[1,2],\"serviceId\":\"s\",\"messages\":[{\"role\":\"user\",\"content\":\"q\",\"timestamp\":12,\"index\":0}]}";
    let r = c.handle_capture_at(body, Source::Protocol, TS);
    assert_eq!(r.status, 200);
    assert_eq!(r.body, "{\"status\":\"ok\"}");
    assert_eq!(r.service.as_deref(), Some("s"));
    assert_eq!(c.log_len(), 1);
}

#[test]
fn beacon_round_trip() {
    let mut c = Collector::new();
    let payload = "{\"s\":\"chatgpt.com\",\"r\":\"user\",\"c\":\"hi\",\"t\":0}";
    let d = urlencoding::encode(payload).into_owned();
    let r = c.handle_beacon_at(d.as_bytes(), TS);
    assert_eq!(&r.image[0..6], b"GIF89a");
    assert_eq!(r.image.len(), 43);
    assert_eq!(r.service.as_deref(), Some("chatgpt.com"));
    assert_eq!(c.log_len(), 1);
    let line: serde_json::Value = serde_json::from_str(c.log_at(0)).unwrap();
    assert_eq!(line["service_id"], "chatgpt.com");
    assert_eq!(line["role"], "user");
    assert_eq!(line["content"], "hi");
    assert_eq!(line["source"], "beacon");
    assert_eq!(line["captured_at"], TS);
}

#[test]
fn beacon_malformed_is_a_silent_no_op() {
    let mut c = Collector::new();
    let r = c.handle_beacon_at(b"%zz-not-json", TS);
    assert_eq!(&r.image[0..6], b"GIF89a");
    assert!(r.service.is_none());
    assert_eq!(c.log_len(), 0);
}

#[test]
fn scheme_unknown_path_is_404() {
    let mut c = Collector::new();
    let r = c.handle_scheme_at("/other", &one_message_body("m"), TS);
    assert_eq!(r.status, 404);
    assert_eq!(r.body, "Not Found");
    assert_eq!(c.log_len(), 0);
}

#[test]
fn merge_dedups_by_content_hash_without_identifier() {
    let mut c = Collector::new();
    let msg = |content: &str| CapturedMessage {
        role: Role::Assistant,
        content: content.to_string(),
        external_id: None,
        conversation_id: None,
        source: Source::Dom,
        timestamp: 1,
    };
    let batch = CaptureBatch {
        service_id: "chat.example.com".to_string(),
        url: None,
        messages: vec![msg("same"), msg("same"), msg("other")],
    };
    let stored = c.merge_batch_at(&batch, TS);
    assert_eq!(stored.len(), 2);
    assert_eq!(c.log_len(), 2);
}

#[test]
fn same_content_under_two_services_is_kept_twice() {
    let mut c = Collector::new();
    let mk = |service: &str| CaptureBatch {
        service_id: service.to_string(),
        url: None,
        messages: vec![CapturedMessage {
            role: Role::User,
            content: "hello".to_string(),
            external_id: None,
            conversation_id: None,
            source: Source::Api,
            timestamp: 0,
        }],
    };
    assert_eq!(c.merge_batch_at(&mk("a.com"), TS).len(), 1);
    assert_eq!(c.merge_batch_at(&mk("b.com"), TS).len(), 1);
    assert_eq!(c.log_len(), 2);
}

#[test]
fn log_line_exact_shape() {
    let mut c = Collector::new();
    let batch = CaptureBatch {
        service_id: "s.x".to_string(),
        url: Some("https://s.x/a".to_string()),
        messages: vec![CapturedMessage {
            role: Role::User,
            content: "a \"b\"\nc".to_string(),
            external_id: Some("id1".to_string()),
            conversation_id: None,
            source: Source::Http,
            timestamp: 0,
        }],
    };
    c.merge_batch_at(&batch, TS);
    assert_eq!(
        c.log_at(0),
        "{\"captured_at\":\"2024-01-02T03:04:05.678+00:00\",\"content\":\"a \\\"b\\\"\\nc\",\"external_id\":\"id1\",\"role\":\"user\",\"service_id\":\"s.x\",\"source\":\"http\",\"url\":\"https://s.x/a\"}"
    );
    let line: serde_json::Value = serde_json::from_str(c.log_at(0)).unwrap();
    assert_eq!(line["content"], "a \"b\"\nc");
}

#[test]
fn merge_at_now_uses_a_clock_timestamp() {
    let mut c = Collector::new();
    let r = c.handle_capture(&one_message_body("m-2"), Source::Http);
    assert_eq!(r.status, 200);
    assert_eq!(c.log_len(), 1);
    let line: serde_json::Value = serde_json::from_str(c.log_at(0)).unwrap();
    let ts = line["captured_at"].as_str().unwrap();
    assert!(ts.len() >= 19);
    assert!(ts.contains('T'));
}

#[test]
fn empty_batch_is_accepted_and_persists_nothing() {
    let mut c = Collector::new();
    let r = c.handle_capture_at(b"{\"serviceId\":\"s\",\"messages\":[]}", Source::Http, TS);
    assert_eq!(r.status, 200);
    assert_eq!(r.stored.len(), 0);
    assert_eq!(c.log_len(), 0);
}
