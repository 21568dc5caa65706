//! Adapter selection and the response pipeline.
//!
//! One closed kind per supported chat service, chosen once per page by
//! hostname over a fixed first-match table; an address filter per kind that
//! decides which network calls carry conversation traffic; and the pipeline
//! stage that turns one intercepted response into normalized messages
//! (decode by framing, then extract by kind).

use vstd::prelude::*;
use crate::adapters;
use crate::decode;
use crate::json;
use crate::msg::CapturedMessage;
use crate::msg::MsgView;
use crate::text;

verus! {

/// The supported chat services, one adapter each.
#[derive(Clone, Copy, PartialEq, Eq, Structural, Debug)]
pub enum ServiceKind {
    /// Snapshot-style event stream; history documents on fetch.
    ChatGpt,
    /// Delta-style event stream with a `prompt` request body.
    DeltaPrompt,
    /// Batched JSON envelope behind a safety prefix.
    Gemini,
    /// Catch-all delta event stream.
    DeepSeek,
}

/// The network adapter a hostname selects: first match over a fixed,
/// non-overlapping table.
pub open spec fn service_for_spec(h: Seq<char>) -> Option<ServiceKind> {
    if text::contains_spec(h, "chatgpt.com"@) {
        Some(ServiceKind::ChatGpt)
    } else if text::contains_spec(h, "gemini.google.com"@) {
        Some(ServiceKind::Gemini)
    } else if text::contains_spec(h, "chat.deepseek.com"@) {
        Some(ServiceKind::DeepSeek)
    } else {
        None
    }
}

/// Select the network adapter for a hostname.
pub fn service_for(hostname: &str) -> (r: Option<ServiceKind>)
    ensures
        r == service_for_spec(hostname@),
{
    if text::str_contains(hostname, "chatgpt.com") {
        Some(ServiceKind::ChatGpt)
    } else if text::str_contains(hostname, "gemini.google.com") {
        Some(ServiceKind::Gemini)
    } else if text::str_contains(hostname, "chat.deepseek.com") {
        Some(ServiceKind::DeepSeek)
    } else {
        None
    }
}

/// A character a vendor conversation identifier is written with.
pub open spec fn is_uuid_char(c: char) -> bool {
    ('a' <= c && c <= 'f') || ('0' <= c && c <= '9') || c == '-'
}

/// Executable form of `is_uuid_char`.
fn is_uuid_char_exec(c: char) -> (r: bool)
    ensures
        r == is_uuid_char(c),
{
    ('a' <= c && c <= 'f') || ('0' <= c && c <= '9') || c == '-'
}

/// The snapshot service's conversation endpoint: the path ends at
/// `/backend-api/conversation`, optionally followed by one 36-character
/// identifier segment.
pub open spec fn conversation_url_spec(u: Seq<char>) -> bool {
    ||| text::ends_with_spec(u, "/backend-api/conversation"@)
    ||| {
        &&& u.len() >= 62
        &&& text::ends_with_spec(u.take(u.len() - 37), "/backend-api/conversation"@)
        &&& u[u.len() - 37] == '/'
        &&& forall|i: int| u.len() - 36 <= i < u.len() ==> is_uuid_char(u[i])
    }
}

/// Two needles occur in `u` in order, without overlapping.
pub open spec fn ordered2(u: Seq<char>, p1: Seq<char>, p2: Seq<char>) -> bool {
    exists|i: int, j: int|
        text::match_at(u, p1, i) && i + p1.len() <= j && text::match_at(u, p2, j)
}

/// Three needles occur in `u` in order, without overlapping.
pub open spec fn ordered3(u: Seq<char>, p1: Seq<char>, p2: Seq<char>, p3: Seq<char>) -> bool {
    exists|i: int, j: int, k: int|
        text::match_at(u, p1, i) && i + p1.len() <= j && text::match_at(u, p2, j) && j + p2.len()
            <= k && text::match_at(u, p3, k)
}

/// Whether two needles occur in order: searching each needle from the end
/// of the earliest previous match loses nothing.
fn find_ordered2(u: &Vec<char>, p1: &Vec<char>, p2: &Vec<char>) -> (r: bool)
    ensures
        r == ordered2(u@, p1@, p2@),
{
    let ul = u.len();
    match text::find_from(u, p1, 0) {
        Some(i) => {
            assert(i + p1@.len() <= ul);
            match text::find_from(u, p2, i + p1.len()) {
                Some(j) => {
                    assert(ordered2(u@, p1@, p2@)) by {
                        assert(text::match_at(u@, p1@, i as int) && i + p1@.len() <= j as int
                            && text::match_at(u@, p2@, j as int));
                    }
                    true
                },
                None => {
                    assert(!ordered2(u@, p1@, p2@)) by {
                        if ordered2(u@, p1@, p2@) {
                            let (i2, j2) = choose|i2: int, j2: int|
                                text::match_at(u@, p1@, i2) && i2 + p1@.len() <= j2
                                    && text::match_at(u@, p2@, j2);
                            assert(i as int <= i2);
                            assert(j2 >= i + p1@.len());
                            assert(!text::match_at(u@, p2@, j2));
                        }
                    }
                    false
                },
            }
        },
        None => {
            assert(!ordered2(u@, p1@, p2@)) by {
                if ordered2(u@, p1@, p2@) {
                    let (i2, j2) = choose|i2: int, j2: int|
                        text::match_at(u@, p1@, i2) && i2 + p1@.len() <= j2 && text::match_at(
                            u@,
                            p2@,
                            j2,
                        );
                    assert(!text::match_at(u@, p1@, i2));
                }
            }
            false
        },
    }
}

/// Whether three needles occur in order.
fn find_ordered3(u: &Vec<char>, p1: &Vec<char>, p2: &Vec<char>, p3: &Vec<char>) -> (r: bool)
    ensures
        r == ordered3(u@, p1@, p2@, p3@),
{
    let ul = u.len();
    match text::find_from(u, p1, 0) {
        Some(i) => {
            assert(i + p1@.len() <= ul);
            match text::find_from(u, p2, i + p1.len()) {
                Some(j) => {
                    assert(j + p2@.len() <= ul);
                    match text::find_from(u, p3, j + p2.len()) {
                        Some(k) => {
                            assert(ordered3(u@, p1@, p2@, p3@)) by {
                                assert(text::match_at(u@, p1@, i as int) && i + p1@.len()
                                    <= j as int && text::match_at(u@, p2@, j as int) && j
                                    + p2@.len() <= k as int && text::match_at(u@, p3@, k as int));
                            }
                            true
                        },
                        None => {
                            assert(!ordered3(u@, p1@, p2@, p3@)) by {
                                if ordered3(u@, p1@, p2@, p3@) {
                                    let (i2, j2, k2) = choose|i2: int, j2: int, k2: int|
                                        text::match_at(u@, p1@, i2) && i2 + p1@.len() <= j2
                                            && text::match_at(u@, p2@, j2) && j2 + p2@.len() <= k2
                                            && text::match_at(u@, p3@, k2);
                                    assert(i as int <= i2);
                                    assert(j2 >= i + p1@.len());
                                    assert(j as int <= j2);
                                    assert(k2 >= j + p2@.len());
                                    assert(!text::match_at(u@, p3@, k2));
                                }
                            }
                            false
                        },
                    }
                },
                None => {
                    assert(!ordered3(u@, p1@, p2@, p3@)) by {
                        if ordered3(u@, p1@, p2@, p3@) {
                            let (i2, j2, k2) = choose|i2: int, j2: int, k2: int|
                                text::match_at(u@, p1@, i2) && i2 + p1@.len() <= j2
                                    && text::match_at(u@, p2@, j2) && j2 + p2@.len() <= k2
                                    && text::match_at(u@, p3@, k2);
                            assert(i as int <= i2);
                            assert(j2 >= i + p1@.len());
                            assert(!text::match_at(u@, p2@, j2));
                        }
                    }
                    false
                },
            }
        },
        None => {
            assert(!ordered3(u@, p1@, p2@, p3@)) by {
                if ordered3(u@, p1@, p2@, p3@) {
                    let (i2, j2, k2) = choose|i2: int, j2: int, k2: int|
                        text::match_at(u@, p1@, i2) && i2 + p1@.len() <= j2 && text::match_at(
                            u@,
                            p2@,
                            j2,
                        ) && j2 + p2@.len() <= k2 && text::match_at(u@, p3@, k2);
                    assert(!text::match_at(u@, p1@, i2));
                }
            }
            false
        },
    }
}

/// The network calls a service's adapter watches.
pub open spec fn url_match_spec(k: ServiceKind, u: Seq<char>) -> bool {
    match k {
        ServiceKind::ChatGpt => conversation_url_spec(u),
        ServiceKind::DeltaPrompt => ordered3(
            u,
            "/api/organizations/"@,
            "/chat_conversations/"@,
            "/completion"@,
        ),
        ServiceKind::Gemini => ordered2(u, "/_/BardChatUi/data/"@, "batchexecute"@),
        ServiceKind::DeepSeek => ordered2(text::lower_spec(u), "/api/"@, "chat"@),
    }
}

/// Whether a network call's address carries conversation traffic for the
/// given service.
pub fn url_match(k: ServiceKind, url: &str) -> (r: bool)
    ensures
        r == url_match_spec(k, url@),
{
    let u = text::to_chars(url);
    match k {
        ServiceKind::ChatGpt => {
            proof {
                reveal_strlit("/backend-api/conversation");
            }
            let pat = text::to_chars("/backend-api/conversation");
            assert(pat@.len() == 25);
            if text::ends_with(&u, &pat) {
                return true;
            }
            let ul = u.len();
            if ul < 62 {
                assert(!conversation_url_spec(url@));
                return false;
            }
            if !(u[ul - 37] == '/') {
                assert(!conversation_url_spec(url@));
                return false;
            }
            let mut i: usize = ul - 36;
            while i < ul
                invariant
                    k is ChatGpt,
                    u@ == url@,
                    pat@ == "/backend-api/conversation"@,
                    !text::ends_with_spec(u@, pat@),
                    ul == u@.len(),
                    62 <= ul,
                    ul - 36 <= i <= ul,
                    forall|t: int| ul - 36 <= t < i ==> is_uuid_char(u@[t]),
                decreases ul - i,
            {
                if !is_uuid_char_exec(u[i]) {
                    proof {
                        assert(!is_uuid_char(url@[i as int]));
                        assert(!(forall|t: int|
                            url@.len() - 36 <= t < url@.len() ==> is_uuid_char(url@[t])));
                        assert(!conversation_url_spec(url@));
                    }
                    return false;
                }
                i = i + 1;
            }
            let head_ok = text::matches_at_exec(&u, &pat, ul - 62);
            proof {
                let uu = u@;
                let t = uu.take(ul - 37);
                assert(t.skip(t.len() - 25) =~= uu.subrange(ul - 62, ul - 37));
            }
            head_ok
        },
        ServiceKind::DeltaPrompt => {
            let p1 = text::to_chars("/api/organizations/");
            let p2 = text::to_chars("/chat_conversations/");
            let p3 = text::to_chars("/completion");
            find_ordered3(&u, &p1, &p2, &p3)
        },
        ServiceKind::Gemini => {
            let p1 = text::to_chars("/_/BardChatUi/data/");
            let p2 = text::to_chars("batchexecute");
            find_ordered2(&u, &p1, &p2)
        },
        ServiceKind::DeepSeek => {
            let low = text::lower_chars(&u);
            let p1 = text::to_chars("/api/");
            let p2 = text::to_chars("chat");
            find_ordered2(&low, &p1, &p2)
        },
    }
}

/// The messages one intercepted response yields, by framing and kind:
/// event-stream bodies go through the stream decoder and the kind's
/// event extractor; JSON bodies read as one document (the envelope kind
/// has its own reading; the others read it as a history document).
pub open spec fn response_messages_spec(
    k: ServiceKind,
    ct: Seq<char>,
    chunks: Seq<Seq<u8>>,
    req: Option<Seq<u8>>,
    now: i64,
) -> Seq<MsgView> {
    if text::contains_spec(ct, "text/event-stream"@) {
        let events = decode::sse_events(decode::concat_chunks(chunks));
        match k {
            ServiceKind::ChatGpt => adapters::snapshot_extract_spec(events, req, now),
            ServiceKind::DeltaPrompt => adapters::delta_extract_spec(events, req, now),
            ServiceKind::DeepSeek => adapters::generic_extract_spec(events, now),
            ServiceKind::Gemini => Seq::empty(),
        }
    } else if text::contains_spec(ct, "application/json"@) {
        match k {
            ServiceKind::Gemini => adapters::envelope_extract_spec(
                decode::concat_chunks(chunks),
                now,
            ),
            _ => match json::json_doc(decode::concat_chunks(chunks)) {
                Some(doc) => adapters::history_extract_spec(doc, now),
                None => Seq::empty(),
            },
        }
    } else {
        Seq::empty()
    }
}

/// Run one intercepted response through the pipeline: nothing unless the
/// address matches the service's watch pattern; then decode by the response
/// content type and extract by the service's rules. A body that fails to
/// decode yields no messages, never an error.
pub fn process_response(
    k: ServiceKind,
    url: &str,
    content_type: &str,
    request_body: Option<&str>,
    chunks: &Vec<Vec<u8>>,
    now_ms: i64,
) -> (r: Vec<CapturedMessage>)
    requires
        now_ms > i64::MIN,
    ensures
        crate::msg::msgs_view(r@) == (if url_match_spec(k, url@) {
            response_messages_spec(
                k,
                content_type@,
                chunks.deep_view(),
                adapters::body_view(request_body),
                now_ms,
            )
        } else {
            Seq::<MsgView>::empty()
        }),
{
    if !url_match(k, url) {
        let r: Vec<CapturedMessage> = Vec::new();
        proof {
            assert(crate::msg::msgs_view(r@) =~= Seq::<MsgView>::empty());
        }
        return r;
    }
    if text::str_contains(content_type, "text/event-stream") {
        let events = decode::decode_event_stream(chunks);
        match k {
            ServiceKind::ChatGpt => adapters::extract_snapshot(&events, request_body, now_ms),
            ServiceKind::DeltaPrompt => adapters::extract_delta(&events, request_body, now_ms),
            ServiceKind::DeepSeek => adapters::extract_generic(&events, now_ms),
            ServiceKind::Gemini => {
                let r: Vec<CapturedMessage> = Vec::new();
                proof {
                    assert(crate::msg::msgs_view(r@) =~= Seq::<MsgView>::empty());
                }
                r
            },
        }
    } else if text::str_contains(content_type, "application/json") {
        let body = decode::concat_exec(chunks);
        match k {
            ServiceKind::Gemini => adapters::extract_envelope(&body, now_ms),
            _ => {
                match json::parse_json(body.as_slice()) {
                    Some(doc) => adapters::extract_history(&doc, now_ms),
                    None => {
                        let r: Vec<CapturedMessage> = Vec::new();
                        proof {
                            assert(crate::msg::msgs_view(r@) =~= Seq::<MsgView>::empty());
                        }
                        r
                    },
                }
            },
        }
    } else {
        let r: Vec<CapturedMessage> = Vec::new();
        proof {
            assert(crate::msg::msgs_view(r@) =~= Seq::<MsgView>::empty());
        }
        r
    }
}

/// The selectors the fallback scraper reads a host's page with.
pub struct DomSelectors {
    /// One conversation turn.
    pub container: &'static str,
    /// Marks a turn the visitor wrote.
    pub user_message: &'static str,
    /// Marks a turn the service wrote.
    pub assistant_message: &'static str,
    /// The text body inside a turn.
    pub content: &'static str,
}

/// The fallback scraper's selector table: first match by hostname.
pub open spec fn dom_table_spec(h: Seq<char>) -> Option<
    (Seq<char>, Seq<char>, Seq<char>, Seq<char>),
> {
    if text::contains_spec(h, "chatgpt.com"@) {
        Some(
            (
                "[data-testid=\"conversation-turn\"]"@,
                "[data-message-author-role=\"user\"]"@,
                "[data-message-author-role=\"assistant\"]"@,
                ".markdown"@,
            ),
        )
    } else if text::contains_spec(h, "gemini.google.com"@) {
        Some((".conversation-container"@, ".query-content"@, ".response-container"@, ".markdown"@))
    } else if text::contains_spec(h, "chat.deepseek.com"@) {
        Some((".message-item"@, ".user-message"@, ".assistant-message"@, ".message-content"@))
    } else if text::contains_spec(h, "chat.qwen.ai"@) {
        Some(
            (
                "[class*=\"chat-message\"]"@,
                "[class*=\"user\"]"@,
                "[class*=\"assistant\"]"@,
                "[class*=\"content\"]"@,
            ),
        )
    } else if text::contains_spec(h, "kimi.moonshot.cn"@) {
        Some(
            (
                "[class*=\"message-item\"]"@,
                "[class*=\"user\"]"@,
                "[class*=\"assistant\"]"@,
                "[class*=\"content\"]"@,
            ),
        )
    } else if text::contains_spec(h, "poe.com"@) {
        Some(
            (
                "[class*=\"Message_\"]"@,
                "[class*=\"human\"]"@,
                "[class*=\"bot\"]"@,
                "[class*=\"Markdown\"]"@,
            ),
        )
    } else if text::contains_spec(h, "perplexity.ai"@) {
        Some(("[class*=\"prose\"]"@, "[class*=\"user\"]"@, "[class*=\"prose\"]"@, "[class*=\"prose\"]"@))
    } else {
        None
    }
}

/// Look up the fallback scraper's selectors for a hostname.
pub fn dom_selectors(hostname: &str) -> (r: Option<DomSelectors>)
    ensures
        match r {
            Some(s) => dom_table_spec(hostname@) == Some(
                (s.container@, s.user_message@, s.assistant_message@, s.content@),
            ),
            None => dom_table_spec(hostname@) is None,
        },
{
    if text::str_contains(hostname, "chatgpt.com") {
        Some(
            DomSelectors {
                container: "[data-testid=\"conversation-turn\"]",
                user_message: "[data-message-author-role=\"user\"]",
                assistant_message: "[data-message-author-role=\"assistant\"]",
                content: ".markdown",
            },
        )
    } else if text::str_contains(hostname, "gemini.google.com") {
        Some(
            DomSelectors {
                container: ".conversation-container",
                user_message: ".query-content",
                assistant_message: ".response-container",
                content: ".markdown",
            },
        )
    } else if text::str_contains(hostname, "chat.deepseek.com") {
        Some(
            DomSelectors {
                container: ".message-item",
                user_message: ".user-message",
                assistant_message: ".assistant-message",
                content: ".message-content",
            },
        )
    } else if text::str_contains(hostname, "chat.qwen.ai") {
        Some(
            DomSelectors {
                container: "[class*=\"chat-message\"]",
                user_message: "[class*=\"user\"]",
                assistant_message: "[class*=\"assistant\"]",
                content: "[class*=\"content\"]",
            },
        )
    } else if text::str_contains(hostname, "kimi.moonshot.cn") {
        Some(
            DomSelectors {
                container: "[class*=\"message-item\"]",
                user_message: "[class*=\"user\"]",
                assistant_message: "[class*=\"assistant\"]",
                content: "[class*=\"content\"]",
            },
        )
    } else if text::str_contains(hostname, "poe.com") {
        Some(
            DomSelectors {
                container: "[class*=\"Message_\"]",
                user_message: "[class*=\"human\"]",
                assistant_message: "[class*=\"bot\"]",
                content: "[class*=\"Markdown\"]",
            },
        )
    } else if text::str_contains(hostname, "perplexity.ai") {
        Some(
            DomSelectors {
                container: "[class*=\"prose\"]",
                user_message: "[class*=\"user\"]",
                assistant_message: "[class*=\"prose\"]",
                content: "[class*=\"prose\"]",
            },
        )
    } else {
        None
    }
}

} // verus!
