use anychat_capture::devtools_flag;
use anychat_capture::jsonl::now_rfc3339;
use anychat_capture::pct::pct_decode_bytes;
use anychat_capture::pct::pct_encode_bytes;
use anychat_capture::text::content_hash;
use anychat_capture::text::parse_int;
use anychat_capture::text::parse_millis;
use anychat_capture::text::to_chars;
use anychat_capture::text::trim_str;
use anychat_capture::webview_bounds;

#[test]
fn trim_removes_ascii_whitespace_at_both_ends() {
    assert_eq!(trim_str(" \t hi there \r\n"), "hi there");
    assert_eq!(trim_str(""), "");
    assert_eq!(trim_str("   "), "");
    assert_eq!(trim_str("héllo "), "héllo");
}

#[test]
fn content_hash_is_deterministic_and_separates_texts() {
    assert_eq!(content_hash("hello"), content_hash("hello"));
    assert_ne!(content_hash("hello"), content_hash("hellp"));
    assert_eq!(content_hash(""), 0);
}

#[test]
fn seconds_text_reads_as_milliseconds() {
    assert_eq!(parse_millis(&to_chars("2.5")), 2500);
    assert_eq!(parse_millis(&to_chars("1712345678.123456")), 1712345678123);
    assert_eq!(parse_millis(&to_chars("-1.25")), -1250);
    assert_eq!(parse_millis(&to_chars("7")), 7000);
    assert_eq!(parse_millis(&to_chars("abc")), 0);
    assert_eq!(parse_millis(&to_chars("999999999999999999999")), 1000000000000000000);
}

#[test]
fn integer_text_reads_exactly() {
    assert_eq!(parse_int(&to_chars("1234")), 1234);
    assert_eq!(parse_int(&to_chars("-9")), -9);
    assert_eq!(parse_int(&to_chars("12.9")), 12);
    assert_eq!(parse_int(&to_chars("x")), 0);
}

#[test]
fn percent_coding_round_trips() {
    let data: Vec<u8> = "a b%c\u{00e9}{\"k\":1}".as_bytes().to_vec();
    let encoded = pct_encode_bytes(&data);
    assert!(encoded.chars().all(|c| c.is_ascii()));
    let back = pct_decode_bytes(encoded.as_bytes());
    assert_eq!(back, data);
}

#[test]
fn percent_decode_passes_cut_short_escapes_through() {
    assert_eq!(pct_decode_bytes(b"%41"), b"A".to_vec());
    assert_eq!(pct_decode_bytes(b"a%"), b"a%".to_vec());
    assert_eq!(pct_decode_bytes(b"%zz"), b"%zz".to_vec());
    assert_eq!(pct_decode_bytes(b"%4"), b"%4".to_vec());
    assert_eq!(pct_decode_bytes(b"%%41"), b"%A".to_vec());
    assert_eq!(pct_decode_bytes(b"%4%41"), b"%4A".to_vec());
}

#[test]
fn clock_text_is_rfc3339_like() {
    let ts = now_rfc3339();
    assert!(ts.len() >= 19);
    assert!(ts
        .chars()
        .all(|c| c.is_ascii_digit() || "-:T.+Z".contains(c)));
}

#[test]
fn surface_bounds_leave_room_for_the_sidebar() {
    assert_eq!(webview_bounds(64, 1200, 800), (64, 0, 1136, 800));
    assert_eq!(webview_bounds(64, 40, 800), (40, 0, 0, 800));
    assert_eq!(webview_bounds(0, 10, 5), (0, 0, 10, 5));
}

#[test]
fn devtools_switch_spellings() {
    assert!(devtools_flag(Some(&"1".to_string())));
    assert!(devtools_flag(Some(&"TRUE".to_string())));
    assert!(devtools_flag(Some(&"true".to_string())));
    assert!(!devtools_flag(Some(&"0".to_string())));
    assert!(!devtools_flag(Some(&"yes".to_string())));
    assert!(!devtools_flag(None));
}
