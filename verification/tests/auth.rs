use anychat_capture::auth::is_auth_url;
use anychat_capture::auth::should_allow_new_window;

#[test]
fn denies_new_window_for_auth_domains() {
    assert!(!should_allow_new_window("https://accounts.google.com/o/oauth2/v2/auth"));
}

#[test]
fn allows_new_window_for_non_auth_domains() {
    assert!(should_allow_new_window("https://example.com"));
}

#[test]
fn auth_url_by_provider_domain() {
    assert!(is_auth_url("https://login.microsoftonline.com/common"));
    assert!(is_auth_url("https://github.com/login/oauth/authorize"));
    assert!(is_auth_url("https://appleid.apple.com/start"));
}

#[test]
fn auth_url_by_path_fragment() {
    assert!(is_auth_url("https://chat.example.com/signin"));
    assert!(is_auth_url("https://chat.example.com/app/login?next=x"));
    assert!(is_auth_url("https://chat.example.com/o/oauth2/token"));
}

#[test]
fn plain_chat_urls_are_not_auth() {
    assert!(!is_auth_url("https://chatgpt.com/backend-api/conversation"));
    assert!(!is_auth_url("https://gemini.google.com/app"));
}
