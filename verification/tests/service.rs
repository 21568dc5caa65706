use anychat_capture::service::dom_selectors;
use anychat_capture::service::process_response;
use anychat_capture::service::service_for;
use anychat_capture::service::url_match;
use anychat_capture::service::ServiceKind;
use anychat_capture::msg::Role;

#[test]
fn service_table_first_match() {
    assert_eq!(service_for("chatgpt.com"), Some(ServiceKind::ChatGpt));
    assert_eq!(service_for("www.chatgpt.com"), Some(ServiceKind::ChatGpt));
    assert_eq!(service_for("gemini.google.com"), Some(ServiceKind::Gemini));
    assert_eq!(service_for("chat.deepseek.com"), Some(ServiceKind::DeepSeek));
    assert_eq!(service_for("example.com"), None);
}

#[test]
fn conversation_url_with_and_without_identifier() {
    assert!(url_match(
        ServiceKind::ChatGpt,
        "https://chatgpt.com/backend-api/conversation"
    ));
    assert!(url_match(
        ServiceKind::ChatGpt,
        "https://chatgpt.com/backend-api/conversation/0123abcd-ef01-2345-6789-abcdef012345"
    ));
    assert!(!url_match(
        ServiceKind::ChatGpt,
        "https://chatgpt.com/backend-api/conversation/short"
    ));
    assert!(!url_match(
        ServiceKind::ChatGpt,
        "https://chatgpt.com/backend-api/conversations"
    ));
}

#[test]
fn delta_service_url_segments_in_order() {
    assert!(url_match(
        ServiceKind::DeltaPrompt,
        "https://chat.example.com/api/organizations/org1/chat_conversations/cc2/completion"
    ));
    assert!(!url_match(
        ServiceKind::DeltaPrompt,
        "https://chat.example.com/api/organizations/org1/completion"
    ));
}

#[test]
fn envelope_service_url() {
    assert!(url_match(
        ServiceKind::Gemini,
        "https://gemini.google.com/_/BardChatUi/data/assistant.lamda.BardFrontendService/StreamGenerate?bl=x&rt=c&batchexecute=1"
    ));
    assert!(!url_match(ServiceKind::Gemini, "https://gemini.google.com/app"));
}

#[test]
fn catch_all_service_url_is_case_insensitive() {
    assert!(url_match(ServiceKind::DeepSeek, "https://chat.deepseek.com/API/v0/CHAT/completions"));
    assert!(!url_match(ServiceKind::DeepSeek, "https://chat.deepseek.com/api/v0/models"));
}

#[test]
fn pipeline_runs_stream_decode_then_extract() {
    let chunks: Vec<Vec<u8>> = vec![
        b"data: {\"message\":{\"author\":{\"role\":\"assistant\"},".to_vec(),
        b"\"content\":{\"parts\":[\"Hi\"]}}}\ndata: [DONE]\n".to_vec(),
    ];
    let msgs = process_response(
        ServiceKind::ChatGpt,
        "https://chatgpt.com/backend-api/conversation",
        "text/event-stream; charset=utf-8",
        None,
        &chunks,
        50,
    );
    assert_eq!(msgs.len(), 1);
    assert_eq!(msgs[0].role, Role::Assistant);
    assert_eq!(msgs[0].content, "Hi");
}

#[test]
fn pipeline_ignores_unmatched_urls() {
    let chunks: Vec<Vec<u8>> = vec![b"data: {\"text\":\"x\"}\n".to_vec()];
    let msgs = process_response(
        ServiceKind::ChatGpt,
        "https://chatgpt.com/backend-api/me",
        "text/event-stream",
        None,
        &chunks,
        50,
    );
    assert_eq!(msgs.len(), 0);
}

#[test]
fn pipeline_reads_json_bodies_as_history() {
    let body = "{\"mapping\":{\"n\":{\"message\":{\"author\":{\"role\":\"user\"},\"content\":{\"parts\":[\"hey\"]},\"create_time\":3}}}}";
    let chunks: Vec<Vec<u8>> = vec![body.as_bytes().to_vec()];
    let msgs = process_response(
        ServiceKind::ChatGpt,
        "https://chatgpt.com/backend-api/conversation/0123abcd-ef01-2345-6789-abcdef012345",
        "application/json",
        None,
        &chunks,
        50,
    );
    assert_eq!(msgs.len(), 1);
    assert_eq!(msgs[0].content, "hey");
    assert_eq!(msgs[0].timestamp, 3000);
}

#[test]
fn pipeline_malformed_json_body_yields_no_messages() {
    let chunks: Vec<Vec<u8>> = vec![b"not json".to_vec()];
    let msgs = process_response(
        ServiceKind::ChatGpt,
        "https://chatgpt.com/backend-api/conversation",
        "application/json",
        None,
        &chunks,
        50,
    );
    assert_eq!(msgs.len(), 0);
}

#[test]
fn dom_selector_table_by_hostname() {
    let s = dom_selectors("chatgpt.com").expect("table entry");
    assert_eq!(s.container, "[data-testid=\"conversation-turn\"]");
    assert_eq!(s.content, ".markdown");
    assert!(dom_selectors("poe.com").is_some());
    assert!(dom_selectors("kimi.moonshot.cn").is_some());
    assert!(dom_selectors("example.org").is_none());
}
