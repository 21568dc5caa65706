use anychat_capture::decode::decode_event_stream;
use anychat_capture::decode::decode_json;
use anychat_capture::decode::DecodedEvent;
use anychat_capture::json::Json;

fn chunks(parts: &[&[u8]]) -> Vec<Vec<u8>> {
    parts.iter().map(|p| p.to_vec()).collect()
}

#[test]
fn event_stream_single_data_line() {
    let events = decode_event_stream(&chunks(&[b"data: {\"a\":1}\n"]));
    assert_eq!(events.len(), 1);
    match &events[0] {
        DecodedEvent::Data(Json::Obj(fields)) => {
            assert_eq!(fields.len(), 1);
            assert_eq!(fields[0].0, "a");
        }
        _ => panic!("expected one data event with an object"),
    }
}

#[test]
fn event_stream_line_spans_two_chunks() {
    let events = decode_event_stream(&chunks(&[b"data: {\"x\":", b"1}\n"]));
    assert_eq!(events.len(), 1);
    assert!(matches!(&events[0], DecodedEvent::Data(_)));
}

#[test]
fn event_stream_done_marker() {
    let events = decode_event_stream(&chunks(&[b"data: [DONE]\n"]));
    assert_eq!(events.len(), 1);
    assert!(matches!(&events[0], DecodedEvent::Done));
}

#[test]
fn event_stream_skips_non_json_payloads() {
    let events = decode_event_stream(&chunks(&[b"data: oops\n", b"data: {\"k\":true}\n"]));
    assert_eq!(events.len(), 1);
    assert!(matches!(&events[0], DecodedEvent::Data(_)));
}

#[test]
fn event_stream_ignores_lines_without_prefix() {
    let events = decode_event_stream(&chunks(&[b"event: ping\n", b": comment\n"]));
    assert_eq!(events.len(), 0);
}

#[test]
fn event_stream_drops_bytes_after_last_newline() {
    let events = decode_event_stream(&chunks(&[b"data: {\"a\":1}"]));
    assert_eq!(events.len(), 0);
}

#[test]
fn event_stream_trims_carriage_return() {
    let events = decode_event_stream(&chunks(&[b"data: [DONE]\r\n"]));
    assert_eq!(events.len(), 1);
    assert!(matches!(&events[0], DecodedEvent::Done));
}

#[test]
fn json_framing_whole_document() {
    let r = decode_json(&chunks(&[b"{\"a\":", b"[1,2]}"]));
    match r {
        Ok(DecodedEvent::Data(Json::Obj(_))) => {}
        _ => panic!("expected one parsed document"),
    }
}

#[test]
fn json_framing_rejects_invalid_body() {
    let r = decode_json(&chunks(&[b"not json"]));
    assert!(r.is_err());
}
