//! Per-vendor extraction rules: each adapter maps the decoded events of one
//! network round trip, together with the outgoing request body, to zero or
//! more normalized messages.
//!
//! Snapshot-style wires (assistant text arrives as repeated full-text
//! snapshots) keep only the final snapshot; delta-style wires concatenate
//! deltas in event order. When the request body parses as the vendor's
//! outgoing shape, the synthesized user message stands before any assistant
//! message and carries a strictly smaller timestamp.

use vstd::prelude::*;
use vstd::string::StringSliceAdditionalSpecFns;
use crate::decode::DecodedEvent;
use crate::json;
use crate::json::Json;
use crate::msg::CapturedMessage;
use crate::msg::MsgView;
use crate::msg::Role;
use crate::msg::Source;
use crate::text;

verus! {

/// The view of an optional request body, as the bytes the wire carried.
pub open spec fn body_view(body: Option<&str>) -> Option<Seq<u8>> {
    match body {
        Some(b) => Some(b.spec_bytes()),
        None => None,
    }
}

/// What one array element contributes to a joined text: its characters when
/// it is a string, nothing otherwise.
pub open spec fn part_str(j: Json) -> Seq<char> {
    match j {
        Json::Str(s) => s@,
        _ => Seq::empty(),
    }
}

/// The concatenation of the string elements of a `parts` array, in order.
pub open spec fn parts_join(ps: Seq<Json>) -> Seq<char>
    decreases ps.len(),
{
    if ps.len() == 0 {
        Seq::empty()
    } else {
        parts_join(ps.drop_last()) + part_str(ps.last())
    }
}

/// The `content.parts` array of a message object, when it has one.
pub open spec fn parts_of(m: Json) -> Option<Seq<Json>> {
    match json::get2_spec(m, "content"@, "parts"@) {
        Some(p) => json::arr_of(p),
        None => None,
    }
}

/// The joined text of a message object's `content.parts`; empty without one.
pub open spec fn parts_text(m: Json) -> Seq<char> {
    match parts_of(m) {
        Some(ps) => parts_join(ps),
        None => Seq::empty(),
    }
}

/// Join the string elements of a message object's `content.parts`.
fn parts_text_exec(m: &Json) -> (out: String)
    ensures
        out@ == parts_text(*m),
{
    let mut out = String::new();
    match json::get2(m, "content", "parts") {
        Some(p) => {
            match json::as_arr(p) {
                Some(a) => {
                    let n = a.len();
                    let mut i: usize = 0;
                    while i < n
                        invariant
                            n == a@.len(),
                            i <= n,
                            out@ == parts_join(a@.take(i as int)),
                        decreases n - i,
                    {
                        proof {
                            assert(a@.take(i + 1).drop_last() =~= a@.take(i as int));
                            assert(a@.take(i + 1).last() == a@[i as int]);
                        }
                        match json::as_str(&a[i]) {
                            Some(s) => {
                                out.append(s.as_str());
                            },
                            None => {
                                assert(out@ + Seq::<char>::empty() =~= out@);
                            },
                        }
                        i = i + 1;
                    }
                    assert(a@.take(n as int) =~= a@);
                },
                None => {},
            }
        },
        None => {},
    }
    out
}

// --- The snapshot-accumulation adapter (full-text snapshots per event) ---

/// The `message` member of a data event, when it is an object.
pub open spec fn message_of(e: DecodedEvent) -> Option<Json> {
    match e {
        DecodedEvent::Data(d) => match json::get_spec(d, "message"@) {
            Some(m) => if m is Obj {
                Some(m)
            } else {
                None
            },
            None => None,
        },
        DecodedEvent::Done => None,
    }
}

/// Whether a message object is an assistant snapshot: its author role says
/// `assistant` and it carries a `content.parts` array.
pub open spec fn is_assistant_snapshot(m: Json) -> bool {
    &&& match json::get2_spec(m, "author"@, "role"@) {
        Some(r) => json::str_of(r) == Some("assistant"@),
        None => false,
    }
    &&& parts_of(m) is Some
}

/// The assistant snapshot an event carries, if any.
pub open spec fn snapshot_of(e: DecodedEvent) -> Option<Json> {
    match message_of(e) {
        Some(m) => if is_assistant_snapshot(m) {
            Some(m)
        } else {
            None
        },
        None => None,
    }
}

/// The conversation identifier an event carries: a non-empty string member
/// `conversation_id` beside an object-valued `message`.
pub open spec fn conv_of(e: DecodedEvent) -> Option<Seq<char>> {
    match e {
        DecodedEvent::Data(d) => if message_of(e) is Some {
            json::nonempty_str_of(json::get_spec(d, "conversation_id"@))
        } else {
            None
        },
        DecodedEvent::Done => None,
    }
}

/// The last assistant snapshot of an event sequence: later snapshots of the
/// same round trip replace earlier ones.
pub open spec fn last_snapshot(events: Seq<DecodedEvent>) -> Option<Json>
    decreases events.len(),
{
    if events.len() == 0 {
        None
    } else {
        match snapshot_of(events.last()) {
            Some(m) => Some(m),
            None => last_snapshot(events.drop_last()),
        }
    }
}

/// The last conversation identifier an event sequence carries.
pub open spec fn last_conv(events: Seq<DecodedEvent>) -> Option<Seq<char>>
    decreases events.len(),
{
    if events.len() == 0 {
        None
    } else {
        match conv_of(events.last()) {
            Some(c) => Some(c),
            None => last_conv(events.drop_last()),
        }
    }
}

/// The assistant message of a snapshot round trip: the trimmed joined parts
/// of the last snapshot, when that text says anything.
pub open spec fn snapshot_assistant(events: Seq<DecodedEvent>, now: i64) -> Seq<MsgView> {
    match last_snapshot(events) {
        Some(m) => {
            let c = text::trim_spec(parts_text(m));
            if c.len() > 0 {
                seq![
                    (MsgView {
                        role: Role::Assistant,
                        content: c,
                        external_id: json::get_str_spec(m, "id"@),
                        conversation_id: last_conv(events),
                        source: Source::Api,
                        timestamp: now,
                    }),
                ]
            } else {
                Seq::empty()
            }
        },
        None => Seq::empty(),
    }
}

/// The first element of the request's `messages` array, when it is an
/// object.
pub open spec fn first_req_msg(rb: Json) -> Option<Json> {
    match json::get_spec(rb, "messages"@) {
        Some(ms) => match json::arr_of(ms) {
            Some(a) => if a.len() > 0 && a[0] is Obj {
                Some(a[0])
            } else {
                None
            },
            None => None,
        },
        None => None,
    }
}

/// The user message synthesized from a snapshot-style request body.
pub open spec fn snapshot_user(rb: Json, conv: Option<Seq<char>>, now: i64) -> Seq<MsgView> {
    match first_req_msg(rb) {
        Some(m0) => {
            let c = text::trim_spec(parts_text(m0));
            if c.len() > 0 {
                seq![
                    (MsgView {
                        role: Role::User,
                        content: c,
                        external_id: json::get_str_spec(m0, "id"@),
                        conversation_id: match conv {
                            Some(cv) => Some(cv),
                            None => json::nonempty_str_of(
                                json::get_spec(rb, "conversation_id"@),
                            ),
                        },
                        source: Source::Api,
                        timestamp: (now - 1) as i64,
                    }),
                ]
            } else {
                Seq::empty()
            }
        },
        None => Seq::empty(),
    }
}

/// Everything a snapshot round trip yields: the synthesized user message,
/// when the request body carries one, then the final assistant snapshot.
pub open spec fn snapshot_extract_spec(
    events: Seq<DecodedEvent>,
    body: Option<Seq<u8>>,
    now: i64,
) -> Seq<MsgView> {
    let amsgs = snapshot_assistant(events, now);
    let umsgs = match body {
        Some(b) => match json::json_doc(b) {
            Some(rb) => snapshot_user(rb, last_conv(events), now),
            None => Seq::empty(),
        },
        None => Seq::empty(),
    };
    umsgs + amsgs
}

/// The assistant snapshot an event carries, if any.
fn snapshot_of_exec<'a>(e: &'a DecodedEvent) -> (r: Option<&'a Json>)
    ensures
        match r {
            Some(m) => snapshot_of(*e) == Some(*m),
            None => snapshot_of(*e) is None,
        },
{
    match e {
        DecodedEvent::Data(d) => {
            match json::get(d, "message") {
                Some(m) => {
                    if json::is_obj(m) {
                        let role_ok = match json::get2(m, "author", "role") {
                            Some(r) => match json::as_str(r) {
                                Some(s) => text::str_eq(s.as_str(), "assistant"),
                                None => false,
                            },
                            None => false,
                        };
                        let parts_ok = match json::get2(m, "content", "parts") {
                            Some(p) => match json::as_arr(p) {
                                Some(_) => true,
                                None => false,
                            },
                            None => false,
                        };
                        if role_ok && parts_ok {
                            Some(m)
                        } else {
                            None
                        }
                    } else {
                        None
                    }
                },
                None => None,
            }
        },
        DecodedEvent::Done => None,
    }
}

/// The conversation identifier an event carries, if any.
fn conv_of_exec<'a>(e: &'a DecodedEvent) -> (r: Option<&'a String>)
    ensures
        match r {
            Some(c) => conv_of(*e) == Some(c@),
            None => conv_of(*e) is None,
        },
{
    match e {
        DecodedEvent::Data(d) => {
            let has_msg = match json::get(d, "message") {
                Some(m) => json::is_obj(m),
                None => false,
            };
            if has_msg {
                json::as_nonempty_str(json::get(d, "conversation_id"))
            } else {
                None
            }
        },
        DecodedEvent::Done => None,
    }
}

/// Extract the messages of one snapshot-style round trip. Only the final
/// non-empty snapshot yields an assistant message — last write wins — and a
/// user message read from the request body stands before it with a strictly
/// smaller timestamp.
pub fn extract_snapshot(
    events: &Vec<DecodedEvent>,
    body: Option<&str>,
    now_ms: i64,
) -> (r: Vec<CapturedMessage>)
    requires
        now_ms > i64::MIN,
    ensures
        crate::msg::msgs_view(r@) == snapshot_extract_spec(events@, body_view(body), now_ms),
{
    let n = events.len();
    let mut i: usize = 0;
    let mut snap: Option<&Json> = None;
    let mut conv: Option<&String> = None;
    while i < n
        invariant
            n == events@.len(),
            i <= n,
            match snap {
                Some(m) => last_snapshot(events@.take(i as int)) == Some(*m),
                None => last_snapshot(events@.take(i as int)) is None,
            },
            match conv {
                Some(c) => last_conv(events@.take(i as int)) == Some(c@),
                None => last_conv(events@.take(i as int)) is None,
            },
        decreases n - i,
    {
        let e = &events[i];
        proof {
            assert(events@.take(i + 1).drop_last() =~= events@.take(i as int));
            assert(events@.take(i + 1).last() == events@[i as int]);
        }
        match snapshot_of_exec(e) {
            Some(m) => {
                snap = Some(m);
            },
            None => {},
        }
        match conv_of_exec(e) {
            Some(c) => {
                conv = Some(c);
            },
            None => {},
        }
        i = i + 1;
    }
    proof {
        assert(events@.take(n as int) =~= events@);
    }
    let ghost spec_msgs = snapshot_extract_spec(events@, body_view(body), now_ms);
    let mut out: Vec<CapturedMessage> = Vec::new();
    let ghost umsgs = match body_view(body) {
        Some(b) => match json::json_doc(b) {
            Some(rb) => snapshot_user(rb, last_conv(events@), now_ms),
            None => Seq::<MsgView>::empty(),
        },
        None => Seq::<MsgView>::empty(),
    };
    match body {
        Some(b) => {
            match json::parse_json(b.as_bytes()) {
                Some(rb) => {
                    let m0 = match json::get(&rb, "messages") {
                        Some(ms) => match json::as_arr(ms) {
                            Some(a) => {
                                if a.len() > 0 && json::is_obj(&a[0]) {
                                    Some(&a[0])
                                } else {
                                    None
                                }
                            },
                            None => None,
                        },
                        None => None,
                    };
                    match m0 {
                        Some(m0) => {
                            let joined = parts_text_exec(m0);
                            let content = text::trim_str(joined.as_str());
                            if !content.as_str().is_empty() {
                                let cid: Option<String> = match conv {
                                    Some(c) => Some(c.clone()),
                                    None => match json::as_nonempty_str(
                                        json::get(&rb, "conversation_id"),
                                    ) {
                                        Some(c) => Some(c.clone()),
                                        None => None,
                                    },
                                };
                                let eid: Option<String> = match json::get_str(m0, "id") {
                                    Some(s) => Some(s.clone()),
                                    None => None,
                                };
                                out.push(
                                    CapturedMessage {
                                        role: Role::User,
                                        content,
                                        external_id: eid,
                                        conversation_id: cid,
                                        source: Source::Api,
                                        timestamp: now_ms - 1,
                                    },
                                );
                            }
                        },
                        None => {},
                    }
                },
                None => {},
            }
        },
        None => {},
    }
    proof {
        assert(crate::msg::msgs_view(out@) =~= umsgs);
    }
    match snap {
        Some(m) => {
            let joined = parts_text_exec(m);
            let content = text::trim_str(joined.as_str());
            if !content.as_str().is_empty() {
                let cid: Option<String> = match conv {
                    Some(c) => Some(c.clone()),
                    None => None,
                };
                let eid: Option<String> = match json::get_str(m, "id") {
                    Some(s) => Some(s.clone()),
                    None => None,
                };
                out.push(
                    CapturedMessage {
                        role: Role::Assistant,
                        content,
                        external_id: eid,
                        conversation_id: cid,
                        source: Source::Api,
                        timestamp: now_ms,
                    },
                );
            }
        },
        None => {},
    }
    proof {
        assert(crate::msg::msgs_view(out@) =~= umsgs + snapshot_assistant(events@, now_ms));
    }
    out
}

// --- The delta-accumulation adapter (incremental text per event) ---

/// What one event adds to the accumulated assistant text: the first
/// non-empty string among `completion`, `delta.text` and
/// `content_block.text`.
pub open spec fn delta_of(e: DecodedEvent) -> Seq<char> {
    match e {
        DecodedEvent::Data(d) => match json::nonempty_str_of(json::get_spec(d, "completion"@)) {
            Some(s) => s,
            None => match json::nonempty_str_of(json::get2_spec(d, "delta"@, "text"@)) {
                Some(s) => s,
                None => match json::nonempty_str_of(
                    json::get2_spec(d, "content_block"@, "text"@),
                ) {
                    Some(s) => s,
                    None => Seq::empty(),
                },
            },
        },
        DecodedEvent::Done => Seq::empty(),
    }
}

/// The accumulated assistant text of a delta round trip: every event's
/// contribution, concatenated in event order.
pub open spec fn deltas_text(events: Seq<DecodedEvent>) -> Seq<char>
    decreases events.len(),
{
    if events.len() == 0 {
        Seq::empty()
    } else {
        deltas_text(events.drop_last()) + delta_of(events.last())
    }
}

/// The user message synthesized from a delta-style request body: its
/// `prompt` member, trimmed, when that says anything.
pub open spec fn delta_user(rb: Json, now: i64) -> Seq<MsgView> {
    match json::nonempty_str_of(json::get_spec(rb, "prompt"@)) {
        Some(p) => {
            let c = text::trim_spec(p);
            if c.len() > 0 {
                seq![
                    (MsgView {
                        role: Role::User,
                        content: c,
                        external_id: None,
                        conversation_id: None,
                        source: Source::Api,
                        timestamp: (now - 1) as i64,
                    }),
                ]
            } else {
                Seq::empty()
            }
        },
        None => Seq::empty(),
    }
}

/// Everything a delta round trip yields.
pub open spec fn delta_extract_spec(
    events: Seq<DecodedEvent>,
    body: Option<Seq<u8>>,
    now: i64,
) -> Seq<MsgView> {
    let rb = match body {
        Some(b) => json::json_doc(b),
        None => None,
    };
    let umsgs = match rb {
        Some(r) => delta_user(r, now),
        None => Seq::empty(),
    };
    let conv = match rb {
        Some(r) => json::get_str_spec(r, "conversation_uuid"@),
        None => None,
    };
    let c = text::trim_spec(deltas_text(events));
    let amsgs = if c.len() > 0 {
        seq![
            (MsgView {
                role: Role::Assistant,
                content: c,
                external_id: None,
                conversation_id: conv,
                source: Source::Api,
                timestamp: now,
            }),
        ]
    } else {
        Seq::empty()
    };
    umsgs + amsgs
}

/// What one event adds to the accumulated assistant text.
fn delta_of_exec<'a>(e: &'a DecodedEvent) -> (r: Option<&'a String>)
    ensures
        match r {
            Some(s) => delta_of(*e) == s@,
            None => delta_of(*e) == Seq::<char>::empty(),
        },
{
    match e {
        DecodedEvent::Data(d) => {
            match json::as_nonempty_str(json::get(d, "completion")) {
                Some(s) => Some(s),
                None => match json::as_nonempty_str(json::get2(d, "delta", "text")) {
                    Some(s) => Some(s),
                    None => match json::as_nonempty_str(json::get2(d, "content_block", "text")) {
                        Some(s) => Some(s),
                        None => None,
                    },
                },
            }
        },
        DecodedEvent::Done => None,
    }
}

/// Extract the messages of one delta-style round trip: the deltas are
/// concatenated in event order into at most one assistant message, and a
/// user message read from the request's `prompt` stands before it with a
/// strictly smaller timestamp.
pub fn extract_delta(
    events: &Vec<DecodedEvent>,
    body: Option<&str>,
    now_ms: i64,
) -> (r: Vec<CapturedMessage>)
    requires
        now_ms > i64::MIN,
    ensures
        crate::msg::msgs_view(r@) == delta_extract_spec(events@, body_view(body), now_ms),
{
    let mut acc = String::new();
    let n = events.len();
    let mut i: usize = 0;
    while i < n
        invariant
            n == events@.len(),
            i <= n,
            acc@ == deltas_text(events@.take(i as int)),
        decreases n - i,
    {
        proof {
            assert(events@.take(i + 1).drop_last() =~= events@.take(i as int));
            assert(events@.take(i + 1).last() == events@[i as int]);
        }
        match delta_of_exec(&events[i]) {
            Some(s) => {
                acc.append(s.as_str());
            },
            None => {
                assert(acc@ + Seq::<char>::empty() =~= acc@);
            },
        }
        i = i + 1;
    }
    proof {
        assert(events@.take(n as int) =~= events@);
    }
    let mut out: Vec<CapturedMessage> = Vec::new();
    let mut conv: Option<String> = None;
    let ghost rb_spec = match body_view(body) {
        Some(b) => json::json_doc(b),
        None => None::<Json>,
    };
    let ghost umsgs = match rb_spec {
        Some(r) => delta_user(r, now_ms),
        None => Seq::<MsgView>::empty(),
    };
    match body {
        Some(b) => {
            match json::parse_json(b.as_bytes()) {
                Some(rb) => {
                    match json::as_nonempty_str(json::get(&rb, "prompt")) {
                        Some(p) => {
                            let content = text::trim_str(p.as_str());
                            if !content.as_str().is_empty() {
                                out.push(
                                    CapturedMessage {
                                        role: Role::User,
                                        content,
                                        external_id: None,
                                        conversation_id: None,
                                        source: Source::Api,
                                        timestamp: now_ms - 1,
                                    },
                                );
                            }
                        },
                        None => {},
                    }
                    match json::get_str(&rb, "conversation_uuid") {
                        Some(s) => {
                            conv = Some(s.clone());
                        },
                        None => {},
                    }
                },
                None => {},
            }
        },
        None => {},
    }
    proof {
        assert(crate::msg::msgs_view(out@) =~= umsgs);
    }
    let content = text::trim_str(acc.as_str());
    if !content.as_str().is_empty() {
        out.push(
            CapturedMessage {
                role: Role::Assistant,
                content,
                external_id: None,
                conversation_id: conv,
                source: Source::Api,
                timestamp: now_ms,
            },
        );
    }
    proof {
        assert(crate::msg::msgs_view(out@) =~= delta_extract_spec(events@, body_view(body), now_ms));
    }
    out
}

// --- The catch-all delta adapter (several common wire shapes) ---

/// What one event adds under the catch-all rules: the first non-empty
/// string among `choices[0].delta.content`, `message.content`, `text` and
/// `content`.
pub open spec fn generic_delta_of(e: DecodedEvent) -> Seq<char> {
    match e {
        DecodedEvent::Data(d) => {
            let c1 = match json::get_spec(d, "choices"@) {
                Some(cs) => match json::arr_of(cs) {
                    Some(a) => if a.len() > 0 {
                        json::nonempty_str_of(json::get2_spec(a[0], "delta"@, "content"@))
                    } else {
                        None
                    },
                    None => None,
                },
                None => None,
            };
            match c1 {
                Some(s) => s,
                None => match json::nonempty_str_of(
                    json::get2_spec(d, "message"@, "content"@),
                ) {
                    Some(s) => s,
                    None => match json::nonempty_str_of(json::get_spec(d, "text"@)) {
                        Some(s) => s,
                        None => match json::nonempty_str_of(json::get_spec(d, "content"@)) {
                            Some(s) => s,
                            None => Seq::empty(),
                        },
                    },
                },
            }
        },
        DecodedEvent::Done => Seq::empty(),
    }
}

/// The accumulated text of a catch-all round trip, in event order.
pub open spec fn generic_text(events: Seq<DecodedEvent>) -> Seq<char>
    decreases events.len(),
{
    if events.len() == 0 {
        Seq::empty()
    } else {
        generic_text(events.drop_last()) + generic_delta_of(events.last())
    }
}

/// Everything a catch-all round trip yields: at most one assistant message.
pub open spec fn generic_extract_spec(events: Seq<DecodedEvent>, now: i64) -> Seq<MsgView> {
    let c = text::trim_spec(generic_text(events));
    if c.len() > 0 {
        seq![
            (MsgView {
                role: Role::Assistant,
                content: c,
                external_id: None,
                conversation_id: None,
                source: Source::Api,
                timestamp: now,
            }),
        ]
    } else {
        Seq::empty()
    }
}

/// What one event adds under the catch-all rules.
fn generic_delta_of_exec<'a>(e: &'a DecodedEvent) -> (r: Option<&'a String>)
    ensures
        match r {
            Some(s) => generic_delta_of(*e) == s@,
            None => generic_delta_of(*e) == Seq::<char>::empty(),
        },
{
    match e {
        DecodedEvent::Data(d) => {
            let c1 = match json::get(d, "choices") {
                Some(cs) => match json::as_arr(cs) {
                    Some(a) => {
                        if a.len() > 0 {
                            json::as_nonempty_str(json::get2(&a[0], "delta", "content"))
                        } else {
                            None
                        }
                    },
                    None => None,
                },
                None => None,
            };
            match c1 {
                Some(s) => Some(s),
                None => match json::as_nonempty_str(json::get2(d, "message", "content")) {
                    Some(s) => Some(s),
                    None => match json::as_nonempty_str(json::get(d, "text")) {
                        Some(s) => Some(s),
                        None => match json::as_nonempty_str(json::get(d, "content")) {
                            Some(s) => Some(s),
                            None => None,
                        },
                    },
                },
            }
        },
        DecodedEvent::Done => None,
    }
}

/// Extract the messages of one catch-all round trip: every event's
/// contribution concatenated in event order into at most one assistant
/// message.
pub fn extract_generic(events: &Vec<DecodedEvent>, now_ms: i64) -> (r: Vec<CapturedMessage>)
    ensures
        crate::msg::msgs_view(r@) == generic_extract_spec(events@, now_ms),
{
    let mut acc = String::new();
    let n = events.len();
    let mut i: usize = 0;
    while i < n
        invariant
            n == events@.len(),
            i <= n,
            acc@ == generic_text(events@.take(i as int)),
        decreases n - i,
    {
        proof {
            assert(events@.take(i + 1).drop_last() =~= events@.take(i as int));
            assert(events@.take(i + 1).last() == events@[i as int]);
        }
        match generic_delta_of_exec(&events[i]) {
            Some(s) => {
                acc.append(s.as_str());
            },
            None => {
                assert(acc@ + Seq::<char>::empty() =~= acc@);
            },
        }
        i = i + 1;
    }
    proof {
        assert(events@.take(n as int) =~= events@);
    }
    let mut out: Vec<CapturedMessage> = Vec::new();
    let content = text::trim_str(acc.as_str());
    if !content.as_str().is_empty() {
        out.push(
            CapturedMessage {
                role: Role::Assistant,
                content,
                external_id: None,
                conversation_id: None,
                source: Source::Api,
                timestamp: now_ms,
            },
        );
    }
    proof {
        assert(crate::msg::msgs_view(out@) =~= generic_extract_spec(events@, now_ms));
    }
    out
}

// --- The history adapter (bulk conversation fetch) ---

/// The creation instant of a history message: its `create_time` number in
/// milliseconds, when it names a non-zero instant; the capture instant
/// otherwise.
pub open spec fn history_ts(m: Json, now: i64) -> i64 {
    match json::get_spec(m, "create_time"@) {
        Some(t) => match json::num_of(t) {
            Some(s) => if text::num_millis(s) != 0 {
                text::num_millis(s) as i64
            } else {
                now
            },
            None => now,
        },
        None => now,
    }
}

/// The message one mapping node contributes: its message object must carry
/// a `content.parts` array, a `user` or `assistant` author role, and text
/// that survives trimming.
pub open spec fn history_item(node: Json, conv: Option<Seq<char>>, now: i64) -> Seq<MsgView> {
    match json::get_spec(node, "message"@) {
        Some(m) => {
            if parts_of(m) is Some {
                let role = match json::get2_spec(m, "author"@, "role"@) {
                    Some(r) => json::str_of(r),
                    None => None,
                };
                let c = text::trim_spec(parts_text(m));
                if (role == Some("user"@) || role == Some("assistant"@)) && c.len() > 0 {
                    seq![
                        (MsgView {
                            role: if role == Some("user"@) {
                                Role::User
                            } else {
                                Role::Assistant
                            },
                            content: c,
                            external_id: json::get_str_spec(m, "id"@),
                            conversation_id: conv,
                            source: Source::History,
                            timestamp: history_ts(m, now),
                        }),
                    ]
                } else {
                    Seq::empty()
                }
            } else {
                Seq::empty()
            }
        },
        None => Seq::empty(),
    }
}

/// The messages of all mapping nodes, in entry order, unsorted.
pub open spec fn history_items(
    entries: Seq<(String, Json)>,
    conv: Option<Seq<char>>,
    now: i64,
) -> Seq<MsgView>
    decreases entries.len(),
{
    if entries.len() == 0 {
        Seq::empty()
    } else {
        history_items(entries.drop_last(), conv, now) + history_item(
            entries.last().1,
            conv,
            now,
        )
    }
}

/// Insert a message into an already ordered run: it moves left past every
/// message with a strictly later creation time, so equal times keep their
/// arrival order.
pub open spec fn insert_ts(m: MsgView, s: Seq<MsgView>) -> Seq<MsgView>
    decreases s.len(),
{
    if s.len() == 0 {
        seq![m]
    } else if m.timestamp < s.last().timestamp {
        insert_ts(m, s.drop_last()).push(s.last())
    } else {
        s.push(m)
    }
}

/// The stable sort of a message run by creation time, ascending.
pub open spec fn sort_ts(s: Seq<MsgView>) -> Seq<MsgView>
    decreases s.len(),
{
    if s.len() == 0 {
        Seq::empty()
    } else {
        insert_ts(s.last(), sort_ts(s.drop_last()))
    }
}

/// Everything a history document yields: each mapping node's message,
/// ordered by vendor-provided creation time ascending.
pub open spec fn history_extract_spec(doc: Json, now: i64) -> Seq<MsgView> {
    match json::get_spec(doc, "mapping"@) {
        Some(mp) => match json::obj_of(mp) {
            Some(entries) => sort_ts(
                history_items(entries, json::get_str_spec(doc, "conversation_id"@), now),
            ),
            None => Seq::empty(),
        },
        None => Seq::empty(),
    }
}

proof fn lemma_insert_ts_at(s: Seq<MsgView>, m: MsgView, j: int)
    requires
        0 <= j <= s.len(),
        forall|t: int| j <= t < s.len() ==> s[t].timestamp > m.timestamp,
        j > 0 ==> s[j - 1].timestamp <= m.timestamp,
    ensures
        insert_ts(m, s) == s.take(j) + seq![m] + s.skip(j),
    decreases s.len(),
{
    if j == s.len() {
        if s.len() == 0 {
            assert(insert_ts(m, s) =~= s.take(j) + seq![m] + s.skip(j));
        } else {
            assert(!(m.timestamp < s.last().timestamp));
            assert(s.push(m) =~= s.take(j) + seq![m] + s.skip(j));
        }
    } else {
        assert(s[s.len() - 1].timestamp > m.timestamp);
        lemma_insert_ts_at(s.drop_last(), m, j);
        assert(s.drop_last().take(j) =~= s.take(j));
        assert((s.drop_last().take(j) + seq![m] + s.drop_last().skip(j)).push(s.last()) =~= s.take(
            j,
        ) + seq![m] + s.skip(j));
    }
}

/// Sort a message run by creation time ascending, stably.
fn sort_by_ts(items: Vec<CapturedMessage>) -> (r: Vec<CapturedMessage>)
    ensures
        crate::msg::msgs_view(r@) == sort_ts(crate::msg::msgs_view(items@)),
{
    let n = items.len();
    let mut out: Vec<CapturedMessage> = Vec::new();
    let mut i: usize = 0;
    proof {
        assert(crate::msg::msgs_view(items@.take(0)) =~= Seq::<MsgView>::empty());
    }
    while i < n
        invariant
            n == items@.len(),
            i <= n,
            crate::msg::msgs_view(out@) == sort_ts(crate::msg::msgs_view(items@.take(i as int))),
        decreases n - i,
    {
        let m = items[i].dup();
        let mut j: usize = out.len();
        while j > 0 && out[j - 1].timestamp > m.timestamp
            invariant
                j <= out@.len(),
                m@ == items@[i as int]@,
                forall|t: int| j <= t < out@.len() ==> #[trigger] out@[t]@.timestamp
                    > m@.timestamp,
            decreases j,
        {
            j = j - 1;
        }
        proof {
            lemma_insert_ts_at(crate::msg::msgs_view(out@), m@, j as int);
            assert(forall|t: int|
                j <= t < out@.len() ==> crate::msg::msgs_view(out@)[t].timestamp > m@.timestamp);
            if j > 0 {
                assert(crate::msg::msgs_view(out@)[j - 1].timestamp <= m@.timestamp);
            }
        }
        let ghost pre = out@;
        out.insert(j, m);
        proof {
            assert(crate::msg::msgs_view(items@.take(i + 1)).drop_last() =~= crate::msg::msgs_view(
                items@.take(i as int),
            ));
            assert(crate::msg::msgs_view(items@.take(i + 1)).last() == items@[i as int]@);
            assert(crate::msg::msgs_view(out@) =~= crate::msg::msgs_view(pre).take(j as int) + seq![items@[i as int]@]
                + crate::msg::msgs_view(pre).skip(j as int));
            assert(sort_ts(crate::msg::msgs_view(items@.take(i + 1))) == insert_ts(
                items@[i as int]@,
                sort_ts(crate::msg::msgs_view(items@.take(i as int))),
            ));
        }
        i = i + 1;
    }
    proof {
        assert(items@.take(n as int) =~= items@);
        assert(crate::msg::msgs_view(items@.take(n as int)) =~= crate::msg::msgs_view(items@));
    }
    out
}

/// Extract the messages of one history document, ordered by creation time.
pub fn extract_history(doc: &Json, now_ms: i64) -> (r: Vec<CapturedMessage>)
    ensures
        crate::msg::msgs_view(r@) == history_extract_spec(*doc, now_ms),
{
    let mut items: Vec<CapturedMessage> = Vec::new();
    match json::get(doc, "mapping") {
        Some(mp) => {
            match json::as_obj(mp) {
                Some(entries) => {
                    let conv = json::get_str(doc, "conversation_id");
                    let ghost conv_spec = json::get_str_spec(*doc, "conversation_id"@);
                    let n = entries.len();
                    let mut k: usize = 0;
                    proof {
                        assert(history_items(entries@.take(0), conv_spec, now_ms)
                            =~= Seq::<MsgView>::empty());
                        assert(crate::msg::msgs_view(items@) =~= Seq::<MsgView>::empty());
                    }
                    while k < n
                        invariant
                            n == entries@.len(),
                            k <= n,
                            match conv {
                                Some(c) => conv_spec == Some(c@),
                                None => conv_spec is None,
                            },
                            conv_spec == json::get_str_spec(*doc, "conversation_id"@),
                            crate::msg::msgs_view(items@) == history_items(
                                entries@.take(k as int),
                                conv_spec,
                                now_ms,
                            ),
                        decreases n - k,
                    {
                        proof {
                            assert(entries@.take(k + 1).drop_last() =~= entries@.take(k as int));
                            assert(entries@.take(k + 1).last() == entries@[k as int]);
                        }
                        let node = &entries[k].1;
                        let ghost pre = items@;
                        match json::get(node, "message") {
                            Some(m) => {
                                let parts_ok = match json::get2(m, "content", "parts") {
                                    Some(p) => match json::as_arr(p) {
                                        Some(_) => true,
                                        None => false,
                                    },
                                    None => false,
                                };
                                if parts_ok {
                                    let role_str = match json::get2(m, "author", "role") {
                                        Some(r) => json::as_str(r),
                                        None => None,
                                    };
                                    let is_user = match role_str {
                                        Some(s) => text::str_eq(s.as_str(), "user"),
                                        None => false,
                                    };
                                    let is_assistant = match role_str {
                                        Some(s) => text::str_eq(s.as_str(), "assistant"),
                                        None => false,
                                    };
                                    if is_user || is_assistant {
                                        let joined = parts_text_exec(m);
                                        let content = text::trim_str(joined.as_str());
                                        if !content.as_str().is_empty() {
                                            let ts: i64 = match json::get(m, "create_time") {
                                                Some(t) => match json::as_num(t) {
                                                    Some(s) => {
                                                        let cv = text::to_chars(s.as_str());
                                                        let ms = text::parse_millis(&cv);
                                                        if ms != 0 {
                                                            ms
                                                        } else {
                                                            now_ms
                                                        }
                                                    },
                                                    None => now_ms,
                                                },
                                                None => now_ms,
                                            };
                                            let eid: Option<String> = match json::get_str(
                                                m,
                                                "id",
                                            ) {
                                                Some(s) => Some(s.clone()),
                                                None => None,
                                            };
                                            let cid: Option<String> = match conv {
                                                Some(c) => Some(c.clone()),
                                                None => None,
                                            };
                                            items.push(
                                                CapturedMessage {
                                                    role: if is_user {
                                                        Role::User
                                                    } else {
                                                        Role::Assistant
                                                    },
                                                    content,
                                                    external_id: eid,
                                                    conversation_id: cid,
                                                    source: Source::History,
                                                    timestamp: ts,
                                                },
                                            );
                                        }
                                    }
                                }
                            },
                            None => {},
                        }
                        proof {
                            assert(crate::msg::msgs_view(items@) =~= crate::msg::msgs_view(pre) + history_item(
                                entries@[k as int].1,
                                conv_spec,
                                now_ms,
                            ));
                        }
                        k = k + 1;
                    }
                    proof {
                        assert(entries@.take(n as int) =~= entries@);
                    }
                    return sort_by_ts(items);
                },
                None => {},
            }
        },
        None => {},
    }
    proof {
        assert(crate::msg::msgs_view(items@) =~= Seq::<MsgView>::empty());
        assert(crate::msg::msgs_view(items@) =~= history_extract_spec(*doc, now_ms));
    }
    items
}

// --- The nested-array adapter (batched envelope with a safety prefix) ---

/// The body with the `)]}'` safety prefix, and one line feed after it,
/// removed.
pub open spec fn strip_guard_prefix(b: Seq<u8>) -> Seq<u8> {
    if b.len() >= 4 && b[0] == 41 && b[1] == 93 && b[2] == 125 && b[3] == 39 {
        let r = b.skip(4);
        if r.len() >= 1 && r[0] == 10 {
            r.skip(1)
        } else {
            r
        }
    } else {
        b
    }
}

/// The inner document of a batched envelope: element 2 of element 0 of the
/// outer document is itself a JSON text, parsed again.
pub open spec fn envelope_inner(b: Seq<u8>) -> Option<Json> {
    match json::json_doc(strip_guard_prefix(b)) {
        Some(doc) => match json::idx_spec(doc, 0) {
            Some(e0) => match json::idx_spec(e0, 2) {
                Some(e2) => match json::str_of(e2) {
                    Some(s) => if s.len() > 0 {
                        json::json_doc(vstd::utf8::encode_utf8(s))
                    } else {
                        None
                    },
                    None => None,
                },
                None => None,
            },
            None => None,
        },
        None => None,
    }
}

/// The answer text inside the inner document: element 0 of element 1 of
/// element 0 of element 4.
pub open spec fn envelope_text(b: Seq<u8>) -> Seq<char> {
    match envelope_inner(b) {
        Some(inner) => match json::idx_spec(inner, 4) {
            Some(i4) => match json::idx_spec(i4, 0) {
                Some(i40) => match json::idx_spec(i40, 1) {
                    Some(i401) => match json::idx_spec(i401, 0) {
                        Some(v) => match json::str_of(v) {
                            Some(s) => s,
                            None => Seq::empty(),
                        },
                        None => Seq::empty(),
                    },
                    None => Seq::empty(),
                },
                None => Seq::empty(),
            },
            None => Seq::empty(),
        },
        None => Seq::empty(),
    }
}

/// Everything a batched envelope yields: at most one assistant message.
pub open spec fn envelope_extract_spec(b: Seq<u8>, now: i64) -> Seq<MsgView> {
    let c = text::trim_spec(envelope_text(b));
    if c.len() > 0 {
        seq![
            (MsgView {
                role: Role::Assistant,
                content: c,
                external_id: None,
                conversation_id: None,
                source: Source::Api,
                timestamp: now,
            }),
        ]
    } else {
        Seq::empty()
    }
}

/// The bytes of `v` from `from` on.
fn tail_bytes(v: &Vec<u8>, from: usize) -> (r: Vec<u8>)
    requires
        from <= v@.len(),
    ensures
        r@ == v@.skip(from as int),
{
    let n = v.len();
    let mut r: Vec<u8> = Vec::new();
    let mut i: usize = from;
    while i < n
        invariant
            n == v@.len(),
            from <= i <= n,
            r@ == v@.subrange(from as int, i as int),
        decreases n - i,
    {
        r.push(v[i]);
        assert(v@.subrange(from as int, i + 1) =~= v@.subrange(from as int, i as int).push(
            v@[i as int],
        ));
        i = i + 1;
    }
    assert(r@ =~= v@.skip(from as int));
    r
}

/// Extract the assistant message of one batched envelope body.
pub fn extract_envelope(body: &Vec<u8>, now_ms: i64) -> (r: Vec<CapturedMessage>)
    ensures
        crate::msg::msgs_view(r@) == envelope_extract_spec(body@, now_ms),
{
    let mut start: usize = 0;
    if body.len() >= 4 && body[0] == 41 && body[1] == 93 && body[2] == 125 && body[3] == 39 {
        start = 4;
        if body.len() >= 5 && body[4] == 10 {
            start = 5;
        }
    }
    let stripped = tail_bytes(body, start);
    proof {
        let b = body@;
        if b.len() >= 4 && b[0] == 41 && b[1] == 93 && b[2] == 125 && b[3] == 39 {
            if b.skip(4).len() >= 1 && b.skip(4)[0] == 10 {
                assert(b.skip(4).skip(1) =~= b.skip(5));
            }
        }
        assert(stripped@ =~= strip_guard_prefix(b));
    }
    let mut text_val = String::new();
    match json::parse_json(stripped.as_slice()) {
        Some(doc) => {
            match json::idx(&doc, 0) {
                Some(e0) => {
                    match json::idx(e0, 2) {
                        Some(e2) => {
                            match json::as_str(e2) {
                                Some(s) => {
                                    if !s.as_str().is_empty() {
                                        match json::parse_json(s.as_str().as_bytes()) {
                                            Some(inner) => {
                                                match json::idx(&inner, 4) {
                                                    Some(i4) => {
                                                        match json::idx(i4, 0) {
                                                            Some(i40) => {
                                                                match json::idx(i40, 1) {
                                                                    Some(i401) => {
                                                                        match json::idx(i401, 0) {
                                                                            Some(v) => {
                                                                                match json::as_str(
                                                                                    v,
                                                                                ) {
                                                                                    Some(t) => {
                                                                                        text_val =
                                                                                            t.clone();
                                                                                    },
                                                                                    None => {},
                                                                                }
                                                                            },
                                                                            None => {},
                                                                        }
                                                                    },
                                                                    None => {},
                                                                }
                                                            },
                                                            None => {},
                                                        }
                                                    },
                                                    None => {},
                                                }
                                            },
                                            None => {},
                                        }
                                    }
                                },
                                None => {},
                            }
                        },
                        None => {},
                    }
                },
                None => {},
            }
        },
        None => {},
    }
    proof {
        assert(text_val@ == envelope_text(body@));
    }
    let mut out: Vec<CapturedMessage> = Vec::new();
    let content = text::trim_str(text_val.as_str());
    if !content.as_str().is_empty() {
        out.push(
            CapturedMessage {
                role: Role::Assistant,
                content,
                external_id: None,
                conversation_id: None,
                source: Source::Api,
                timestamp: now_ms,
            },
        );
    }
    proof {
        assert(crate::msg::msgs_view(out@) =~= envelope_extract_spec(body@, now_ms));
    }
    out
}

// --- Laws of the adapters ---

/// Order preservation within adapter output: whenever one snapshot round
/// trip yields both the synthesized user message and an assistant message,
/// the user message stands first and carries a strictly smaller timestamp,
/// whatever order the wire delivered them in.
pub proof fn lemma_user_precedes_assistant(
    events: Seq<DecodedEvent>,
    body: Option<Seq<u8>>,
    now: i64,
)
    requires
        now > i64::MIN,
    ensures
        forall|i: int, j: int|
            #![trigger snapshot_extract_spec(events, body, now)[i], snapshot_extract_spec(events, body, now)[j]]
            (0 <= i < snapshot_extract_spec(events, body, now).len() && 0 <= j
                < snapshot_extract_spec(events, body, now).len() && snapshot_extract_spec(
                events,
                body,
                now,
            )[i].role == Role::User && snapshot_extract_spec(events, body, now)[j].role
                == Role::Assistant) ==> i < j && snapshot_extract_spec(events, body, now)[i].timestamp
                < snapshot_extract_spec(events, body, now)[j].timestamp,
{
    let r = snapshot_extract_spec(events, body, now);
    let amsgs = snapshot_assistant(events, now);
    let umsgs = match body {
        Some(b) => match json::json_doc(b) {
            Some(rb) => snapshot_user(rb, last_conv(events), now),
            None => Seq::<MsgView>::empty(),
        },
        None => Seq::<MsgView>::empty(),
    };
    assert(r == umsgs + amsgs);
    assert(forall|t: int|
        0 <= t < umsgs.len() ==> umsgs[t].role == Role::User && umsgs[t].timestamp == now - 1);
    assert(forall|t: int|
        0 <= t < amsgs.len() ==> amsgs[t].role == Role::Assistant && amsgs[t].timestamp == now);
    assert forall|i: int, j: int|
        (0 <= i < r.len() && 0 <= j < r.len() && r[i].role == Role::User && r[j].role
            == Role::Assistant) implies i < j && r[i].timestamp < r[j].timestamp by {
        if i >= umsgs.len() {
            assert(r[i] == amsgs[i - umsgs.len()]);
        }
        if j < umsgs.len() {
            assert(r[j] == umsgs[j]);
        }
        assert(i < umsgs.len());
        assert(j >= umsgs.len());
        assert(r[i] == umsgs[i]);
        assert(r[j] == amsgs[j - umsgs.len()]);
    }
}

/// Last snapshot wins: a snapshot round trip yields at most one assistant
/// message, and its text is the trimmed joined parts of the final snapshot
/// event — earlier snapshots of the same reply leave no trace.
pub proof fn lemma_last_snapshot_wins(events: Seq<DecodedEvent>, body: Option<Seq<u8>>, now: i64)
    ensures
        forall|i: int, j: int|
            #![trigger snapshot_extract_spec(events, body, now)[i], snapshot_extract_spec(events, body, now)[j]]
            (0 <= i < snapshot_extract_spec(events, body, now).len() && 0 <= j
                < snapshot_extract_spec(events, body, now).len() && snapshot_extract_spec(
                events,
                body,
                now,
            )[i].role == Role::Assistant && snapshot_extract_spec(events, body, now)[j].role
                == Role::Assistant) ==> i == j,
        forall|i: int|
            #![trigger snapshot_extract_spec(events, body, now)[i]]
            (0 <= i < snapshot_extract_spec(events, body, now).len() && snapshot_extract_spec(
                events,
                body,
                now,
            )[i].role == Role::Assistant) ==> last_snapshot(events) is Some
                && snapshot_extract_spec(events, body, now)[i].content == text::trim_spec(
                parts_text(last_snapshot(events).unwrap()),
            ),
{
    let r = snapshot_extract_spec(events, body, now);
    let amsgs = snapshot_assistant(events, now);
    let umsgs = match body {
        Some(b) => match json::json_doc(b) {
            Some(rb) => snapshot_user(rb, last_conv(events), now),
            None => Seq::<MsgView>::empty(),
        },
        None => Seq::<MsgView>::empty(),
    };
    assert(r == umsgs + amsgs);
    assert(forall|t: int| 0 <= t < umsgs.len() ==> umsgs[t].role == Role::User);
    assert(amsgs.len() <= 1);
    assert forall|i: int|
        (0 <= i < r.len() && r[i].role == Role::Assistant) implies last_snapshot(events) is Some
        && r[i].content == text::trim_spec(parts_text(last_snapshot(events).unwrap())) by {
        if i < umsgs.len() {
            assert(r[i] == umsgs[i]);
        }
        assert(i >= umsgs.len());
        assert(r[i] == amsgs[i - umsgs.len()]);
    }
    assert forall|i: int, j: int|
        (0 <= i < r.len() && 0 <= j < r.len() && r[i].role == Role::Assistant && r[j].role
            == Role::Assistant) implies i == j by {
        if i < umsgs.len() {
            assert(r[i] == umsgs[i]);
        }
        if j < umsgs.len() {
            assert(r[j] == umsgs[j]);
        }
        assert(r[i] == amsgs[i - umsgs.len()]);
        assert(r[j] == amsgs[j - umsgs.len()]);
    }
}

/// Delta accumulation: a delta round trip yields at most one assistant
/// message, and its text is the trimmed concatenation of every event's
/// contribution, in event order.
pub proof fn lemma_delta_accumulation(events: Seq<DecodedEvent>, body: Option<Seq<u8>>, now: i64)
    ensures
        forall|i: int, j: int|
            #![trigger delta_extract_spec(events, body, now)[i], delta_extract_spec(events, body, now)[j]]
            (0 <= i < delta_extract_spec(events, body, now).len() && 0 <= j < delta_extract_spec(
                events,
                body,
                now,
            ).len() && delta_extract_spec(events, body, now)[i].role == Role::Assistant
                && delta_extract_spec(events, body, now)[j].role == Role::Assistant) ==> i == j,
        forall|i: int|
            #![trigger delta_extract_spec(events, body, now)[i]]
            (0 <= i < delta_extract_spec(events, body, now).len() && delta_extract_spec(
                events,
                body,
                now,
            )[i].role == Role::Assistant) ==> delta_extract_spec(events, body, now)[i].content
                == text::trim_spec(deltas_text(events)),
{
    let r = delta_extract_spec(events, body, now);
    let rb = match body {
        Some(b) => json::json_doc(b),
        None => None::<Json>,
    };
    let umsgs = match rb {
        Some(rbv) => delta_user(rbv, now),
        None => Seq::<MsgView>::empty(),
    };
    let conv = match rb {
        Some(rbv) => json::get_str_spec(rbv, "conversation_uuid"@),
        None => None,
    };
    let c = text::trim_spec(deltas_text(events));
    let amsgs = if c.len() > 0 {
        seq![
            (MsgView {
                role: Role::Assistant,
                content: c,
                external_id: None,
                conversation_id: conv,
                source: Source::Api,
                timestamp: now,
            }),
        ]
    } else {
        Seq::<MsgView>::empty()
    };
    assert(r == umsgs + amsgs);
    assert(forall|t: int| 0 <= t < umsgs.len() ==> umsgs[t].role == Role::User);
    assert forall|i: int|
        (0 <= i < r.len() && r[i].role == Role::Assistant) implies r[i].content
        == text::trim_spec(deltas_text(events)) by {
        if i < umsgs.len() {
            assert(r[i] == umsgs[i]);
        }
        assert(r[i] == amsgs[i - umsgs.len()]);
    }
    assert forall|i: int, j: int|
        (0 <= i < r.len() && 0 <= j < r.len() && r[i].role == Role::Assistant && r[j].role
            == Role::Assistant) implies i == j by {
        if i < umsgs.len() {
            assert(r[i] == umsgs[i]);
        }
        if j < umsgs.len() {
            assert(r[j] == umsgs[j]);
        }
        assert(r[i] == amsgs[i - umsgs.len()]);
        assert(r[j] == amsgs[j - umsgs.len()]);
    }
}

/// Snapshot outputs meet the data model: non-empty trimmed text.
pub proof fn lemma_snapshot_outputs_wf(events: Seq<DecodedEvent>, body: Option<Seq<u8>>, now: i64)
    ensures
        forall|i: int|
            #![trigger snapshot_extract_spec(events, body, now)[i]]
            0 <= i < snapshot_extract_spec(events, body, now).len() ==> crate::msg::msg_wf(
                snapshot_extract_spec(events, body, now)[i],
            ),
{
    let r = snapshot_extract_spec(events, body, now);
    assert forall|i: int| 0 <= i < r.len() implies crate::msg::msg_wf(r[i]) by {
        let amsgs = snapshot_assistant(events, now);
        let umsgs = match body {
            Some(b) => match json::json_doc(b) {
                Some(rb) => snapshot_user(rb, last_conv(events), now),
                None => Seq::<MsgView>::empty(),
            },
            None => Seq::<MsgView>::empty(),
        };
        assert(r == umsgs + amsgs);
        match body {
            Some(b) => match json::json_doc(b) {
                Some(rb) => match first_req_msg(rb) {
                    Some(m0) => {
                        text::lemma_trim_idempotent(parts_text(m0));
                    },
                    None => {},
                },
                None => {},
            },
            None => {},
        }
        match last_snapshot(events) {
            Some(m) => {
                text::lemma_trim_idempotent(parts_text(m));
            },
            None => {},
        }
        if i < umsgs.len() {
            assert(r[i] == umsgs[i]);
        } else {
            assert(r[i] == amsgs[i - umsgs.len()]);
        }
    }
}

/// Delta outputs meet the data model: non-empty trimmed text.
pub proof fn lemma_delta_outputs_wf(events: Seq<DecodedEvent>, body: Option<Seq<u8>>, now: i64)
    ensures
        forall|i: int|
            #![trigger delta_extract_spec(events, body, now)[i]]
            0 <= i < delta_extract_spec(events, body, now).len() ==> crate::msg::msg_wf(
                delta_extract_spec(events, body, now)[i],
            ),
{
    let r = delta_extract_spec(events, body, now);
    assert forall|i: int| 0 <= i < r.len() implies crate::msg::msg_wf(r[i]) by {
        let rb = match body {
            Some(b) => json::json_doc(b),
            None => None::<Json>,
        };
        let umsgs = match rb {
            Some(rbv) => delta_user(rbv, now),
            None => Seq::<MsgView>::empty(),
        };
        match rb {
            Some(rbv) => match json::nonempty_str_of(json::get_spec(rbv, "prompt"@)) {
                Some(p) => {
                    text::lemma_trim_idempotent(p);
                },
                None => {},
            },
            None => {},
        }
        text::lemma_trim_idempotent(deltas_text(events));
        if i < umsgs.len() {
            assert(r[i] == umsgs[i]);
        } else {
            assert(r[i] == (r.skip(umsgs.len() as int))[i - umsgs.len()]);
        }
    }
}

/// Catch-all outputs meet the data model: non-empty trimmed text.
pub proof fn lemma_generic_outputs_wf(events: Seq<DecodedEvent>, now: i64)
    ensures
        forall|i: int|
            #![trigger generic_extract_spec(events, now)[i]]
            0 <= i < generic_extract_spec(events, now).len() ==> crate::msg::msg_wf(
                generic_extract_spec(events, now)[i],
            ),
{
    text::lemma_trim_idempotent(generic_text(events));
}

proof fn lemma_insert_ts_all_wf(m: MsgView, s: Seq<MsgView>)
    requires
        crate::msg::msg_wf(m),
        forall|i: int| 0 <= i < s.len() ==> crate::msg::msg_wf(#[trigger] s[i]),
    ensures
        forall|i: int|
            0 <= i < insert_ts(m, s).len() ==> crate::msg::msg_wf(#[trigger] insert_ts(m, s)[i]),
    decreases s.len(),
{
    if s.len() == 0 {
    } else if m.timestamp < s.last().timestamp {
        lemma_insert_ts_all_wf(m, s.drop_last());
        assert forall|i: int| 0 <= i < insert_ts(m, s).len() implies crate::msg::msg_wf(
            #[trigger] insert_ts(m, s)[i],
        ) by {
            if i < insert_ts(m, s.drop_last()).len() {
                assert(insert_ts(m, s)[i] == insert_ts(m, s.drop_last())[i]);
            } else {
                assert(insert_ts(m, s)[i] == s.last());
            }
        }
    } else {
        assert forall|i: int| 0 <= i < insert_ts(m, s).len() implies crate::msg::msg_wf(
            #[trigger] insert_ts(m, s)[i],
        ) by {
            if i < s.len() {
                assert(insert_ts(m, s)[i] == s[i]);
            } else {
                assert(insert_ts(m, s)[i] == m);
            }
        }
    }
}

proof fn lemma_sort_ts_all_wf(s: Seq<MsgView>)
    requires
        forall|i: int| 0 <= i < s.len() ==> crate::msg::msg_wf(#[trigger] s[i]),
    ensures
        forall|i: int|
            0 <= i < sort_ts(s).len() ==> crate::msg::msg_wf(#[trigger] sort_ts(s)[i]),
    decreases s.len(),
{
    if s.len() > 0 {
        assert(forall|i: int|
            0 <= i < s.drop_last().len() ==> crate::msg::msg_wf(#[trigger] s.drop_last()[i]));
        lemma_sort_ts_all_wf(s.drop_last());
        lemma_insert_ts_all_wf(s.last(), sort_ts(s.drop_last()));
    }
}

proof fn lemma_history_items_wf(entries: Seq<(String, Json)>, conv: Option<Seq<char>>, now: i64)
    ensures
        forall|i: int|
            0 <= i < history_items(entries, conv, now).len() ==> crate::msg::msg_wf(
                #[trigger] history_items(entries, conv, now)[i],
            ),
    decreases entries.len(),
{
    if entries.len() > 0 {
        lemma_history_items_wf(entries.drop_last(), conv, now);
        let head = history_items(entries.drop_last(), conv, now);
        let tail = history_item(entries.last().1, conv, now);
        match json::get_spec(entries.last().1, "message"@) {
            Some(m) => {
                text::lemma_trim_idempotent(parts_text(m));
            },
            None => {},
        }
        assert forall|i: int| 0 <= i < history_items(entries, conv, now).len() implies
            crate::msg::msg_wf(#[trigger] history_items(entries, conv, now)[i]) by {
            if i < head.len() {
                assert(history_items(entries, conv, now)[i] == head[i]);
            } else {
                assert(history_items(entries, conv, now)[i] == tail[i - head.len()]);
            }
        }
    }
}

/// History outputs meet the data model: non-empty trimmed text.
pub proof fn lemma_history_outputs_wf(doc: Json, now: i64)
    ensures
        forall|i: int|
            #![trigger history_extract_spec(doc, now)[i]]
            0 <= i < history_extract_spec(doc, now).len() ==> crate::msg::msg_wf(
                history_extract_spec(doc, now)[i],
            ),
{
    match json::get_spec(doc, "mapping"@) {
        Some(mp) => match json::obj_of(mp) {
            Some(entries) => {
                let conv = json::get_str_spec(doc, "conversation_id"@);
                lemma_history_items_wf(entries, conv, now);
                lemma_sort_ts_all_wf(history_items(entries, conv, now));
            },
            None => {},
        },
        None => {},
    }
}

} // verus!
