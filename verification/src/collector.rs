//! The ingestion collector: the single point where records from every
//! delivery channel converge.
//!
//! Each transport endpoint normalizes its wire shape into a capture batch;
//! a shared merge step computes each record's dedup key — the vendor
//! identifier when present, else the content hash, scoped per service —
//! discards a record whose key was already persisted, and appends one log
//! line per record that is new. The caller serializes access (one collector
//! behind one lock), so the check and the append act as one atomic unit.

use vstd::prelude::*;
use crate::json;
use crate::json::Json;
use crate::jsonl;
use crate::msg;
use crate::msg::CaptureBatch;
use crate::msg::CapturedMessage;
use crate::msg::KeyView;
use crate::msg::MsgKey;
use crate::msg::MsgView;
use crate::msg::Role;
use crate::msg::Source;
use crate::pct;
use crate::text;

verus! {

/// A key is recorded for a service.
pub open spec fn seen_has(
    seen: Seq<(Seq<char>, KeyView)>,
    service: Seq<char>,
    k: KeyView,
) -> bool {
    exists|i: int| 0 <= i < seen.len() && seen[i].0 == service && seen[i].1 == k
}

/// The recorded keys after merging a message run, in order.
pub open spec fn merge_seen(
    seen: Seq<(Seq<char>, KeyView)>,
    service: Seq<char>,
    msgs: Seq<MsgView>,
) -> Seq<(Seq<char>, KeyView)>
    decreases msgs.len(),
{
    if msgs.len() == 0 {
        seen
    } else {
        let k = msg::key_spec(msgs[0]);
        let s2 = if seen_has(seen, service, k) {
            seen
        } else {
            seen.push((service, k))
        };
        merge_seen(s2, service, msgs.drop_first())
    }
}

/// The log lines a merge appends: one line per message whose key is new,
/// in message order.
pub open spec fn merge_lines(
    seen: Seq<(Seq<char>, KeyView)>,
    service: Seq<char>,
    url: Option<Seq<char>>,
    msgs: Seq<MsgView>,
    ts: Seq<char>,
) -> Seq<Seq<char>>
    decreases msgs.len(),
{
    if msgs.len() == 0 {
        Seq::empty()
    } else {
        let k = msg::key_spec(msgs[0]);
        if seen_has(seen, service, k) {
            merge_lines(seen, service, url, msgs.drop_first(), ts)
        } else {
            seq![jsonl::log_line_spec(service, url, msgs[0], ts)] + merge_lines(
                seen.push((service, k)),
                service,
                url,
                msgs.drop_first(),
                ts,
            )
        }
    }
}

/// The messages a merge keeps: those whose key is new, in message order.
pub open spec fn merge_kept(
    seen: Seq<(Seq<char>, KeyView)>,
    service: Seq<char>,
    msgs: Seq<MsgView>,
) -> Seq<MsgView>
    decreases msgs.len(),
{
    if msgs.len() == 0 {
        Seq::empty()
    } else {
        let k = msg::key_spec(msgs[0]);
        if seen_has(seen, service, k) {
            merge_kept(seen, service, msgs.drop_first())
        } else {
            seq![msgs[0]] + merge_kept(seen.push((service, k)), service, msgs.drop_first())
        }
    }
}

/// The view of one dedup index entry.
pub open spec fn entry_view(p: (String, MsgKey)) -> (Seq<char>, KeyView) {
    (p.0@, p.1@)
}

/// The mathematical shape of the collector.
pub struct CollectorView {
    /// Every dedup key persisted so far, with its service.
    pub seen: Seq<(Seq<char>, KeyView)>,
    /// The append-only record log, one line per persisted message.
    pub log: Seq<Seq<char>>,
}

/// The ingestion collector's state: the dedup index and the append-only
/// log. The log is never truncated; lines the caller has already written
/// out keep their places.
pub struct Collector {
    seen: Vec<(String, MsgKey)>,
    log: Vec<String>,
}

impl View for Collector {
    type V = CollectorView;

    closed spec fn view(&self) -> CollectorView {
        CollectorView {
            seen: self.seen@.map_values(|p: (String, MsgKey)| entry_view(p)),
            log: self.log@.map_values(|s: String| s@),
        }
    }
}

impl Collector {
    /// An empty collector: nothing persisted, nothing recorded.
    pub fn new() -> (r: Collector)
        ensures
            r@.seen == Seq::<(Seq<char>, KeyView)>::empty(),
            r@.log == Seq::<Seq<char>>::empty(),
    {
        let r = Collector { seen: Vec::new(), log: Vec::new() };
        proof {
            assert(r@.seen =~= Seq::<(Seq<char>, KeyView)>::empty());
            assert(r@.log =~= Seq::<Seq<char>>::empty());
        }
        r
    }

    /// How many lines the log holds.
    pub fn log_len(&self) -> (n: usize)
        ensures
            n == self@.log.len(),
    {
        self.log.len()
    }

    /// One line of the log.
    pub fn log_at(&self, i: usize) -> (r: &String)
        requires
            i < self@.log.len(),
        ensures
            r@ == self@.log[i as int],
    {
        &self.log[i]
    }

    /// Whether a key is already recorded for a service.
    fn contains_key(&self, service: &str, k: &MsgKey) -> (r: bool)
        ensures
            r == seen_has(self@.seen, service@, k@),
    {
        let n = self.seen.len();
        let mut i: usize = 0;
        while i < n
            invariant
                n == self.seen@.len(),
                i <= n,
                forall|j: int|
                    0 <= j < i ==> !(#[trigger] self.seen@[j].0@ == service@ && self.seen@[j].1@
                        == k@),
            decreases n - i,
        {
            let entry = &self.seen[i];
            if text::str_eq(entry.0.as_str(), service) && msg::key_eq(&entry.1, k) {
                proof {
                    assert(self@.seen[i as int].0 == service@ && self@.seen[i as int].1 == k@);
                }
                return true;
            }
            i = i + 1;
        }
        proof {
            assert forall|j: int| 0 <= j < self@.seen.len() implies !(self@.seen[j].0 == service@
                && self@.seen[j].1 == k@) by {
                assert(self@.seen[j] == (self.seen@[j].0@, self.seen@[j].1@));
            }
        }
        false
    }

    /// Merge one batch at a given persistence instant: for each message in
    /// order, record its key and append its log line unless the key is
    /// already recorded. Returns the messages that were newly persisted —
    /// the content of the notification the caller publishes.
    pub fn merge_batch_at(&mut self, batch: &CaptureBatch, ts: &str) -> (stored: Vec<
        CapturedMessage,
    >)
        ensures
            final(self)@.seen == merge_seen(old(self)@.seen, batch@.service_id, batch@.messages),
            final(self)@.log == old(self)@.log + merge_lines(
                old(self)@.seen,
                batch@.service_id,
                batch@.url,
                batch@.messages,
                ts@,
            ),
            msg::msgs_view(stored@) == merge_kept(
                old(self)@.seen,
                batch@.service_id,
                batch@.messages,
            ),
    {
        let ghost seen0 = old(self)@.seen;
        let ghost log0 = old(self)@.log;
        let ghost svc = batch@.service_id;
        let ghost url = batch@.url;
        let ghost all = batch@.messages;
        let mut stored: Vec<CapturedMessage> = Vec::new();
        let n = batch.messages.len();
        let mut i: usize = 0;
        proof {
            assert(all.skip(0) =~= all);
            assert(msg::msgs_view(stored@) =~= Seq::<MsgView>::empty());
            assert(log0 + merge_lines(seen0, svc, url, all, ts@) =~= self@.log + merge_lines(
                self@.seen,
                svc,
                url,
                all.skip(0),
                ts@,
            ));
        }
        while i < n
            invariant
                n == batch.messages@.len(),
                i <= n,
                all == batch@.messages,
                svc == batch@.service_id,
                url == batch@.url,
                merge_seen(seen0, svc, all) == merge_seen(self@.seen, svc, all.skip(i as int)),
                log0 + merge_lines(seen0, svc, url, all, ts@) == self@.log + merge_lines(
                    self@.seen,
                    svc,
                    url,
                    all.skip(i as int),
                    ts@,
                ),
                merge_kept(seen0, svc, all) == msg::msgs_view(stored@) + merge_kept(
                    self@.seen,
                    svc,
                    all.skip(i as int),
                ),
            decreases n - i,
        {
            let m = &batch.messages[i];
            let k = msg::msg_key(m);
            proof {
                assert(all.skip(i as int).len() > 0);
                assert(all.skip(i as int)[0] == all[i as int]);
                assert(all[i as int] == batch.messages@[i as int]@);
                assert(all.skip(i as int).drop_first() =~= all.skip(i + 1));
            }
            if !self.contains_key(batch.service_id.as_str(), &k) {
                let url_ref: Option<&String> = match &batch.url {
                    Some(u) => Some(u),
                    None => None,
                };
                let line = jsonl::log_line(batch.service_id.as_str(), url_ref, m, ts);
                let ghost pre_seen = self@.seen;
                let ghost pre_log = self@.log;
                let ghost pre_stored = stored@;
                self.seen.push((batch.service_id.clone(), k));
                self.log.push(line);
                stored.push(m.dup());
                proof {
                    assert(self@.seen =~= pre_seen.push((svc, msg::key_spec(all[i as int]))));
                    assert(self@.log =~= pre_log.push(jsonl::log_line_spec(
                        svc,
                        url,
                        all[i as int],
                        ts@,
                    )));
                    assert(msg::msgs_view(stored@) =~= msg::msgs_view(pre_stored).push(
                        all[i as int],
                    ));
                    assert(pre_log + (seq![jsonl::log_line_spec(svc, url, all[i as int], ts@)]
                        + merge_lines(
                        self@.seen,
                        svc,
                        url,
                        all.skip(i + 1),
                        ts@,
                    )) =~= self@.log + merge_lines(self@.seen, svc, url, all.skip(i + 1), ts@));
                    assert(msg::msgs_view(pre_stored) + (seq![all[i as int]] + merge_kept(
                        self@.seen,
                        svc,
                        all.skip(i + 1),
                    )) =~= msg::msgs_view(stored@) + merge_kept(
                        self@.seen,
                        svc,
                        all.skip(i + 1),
                    ));
                }
            }
            i = i + 1;
        }
        proof {
            assert(all.skip(n as int) =~= Seq::<MsgView>::empty());
            assert(self@.log + Seq::<Seq<char>>::empty() =~= self@.log);
            assert(msg::msgs_view(stored@) + Seq::<MsgView>::empty() =~= msg::msgs_view(
                stored@,
            ));
        }
        stored
    }

    /// Merge one batch at the present instant.
    pub fn merge_batch(&mut self, batch: &CaptureBatch) -> (stored: Vec<CapturedMessage>)
        ensures
            final(self)@.seen == merge_seen(old(self)@.seen, batch@.service_id, batch@.messages),
            msg::msgs_view(stored@) == merge_kept(
                old(self)@.seen,
                batch@.service_id,
                batch@.messages,
            ),
            exists|ts: Seq<char>|
                jsonl::clock_shaped(ts) && final(self)@.log == old(self)@.log
                    + #[trigger] merge_lines(
                    old(self)@.seen,
                    batch@.service_id,
                    batch@.url,
                    batch@.messages,
                    ts,
                ),
    {
        let ts = jsonl::now_rfc3339();
        self.merge_batch_at(batch, ts.as_str())
    }
}

// --- Wire payload reading (shared by the scheme and the loopback post) ---

/// An optional string field: `Some(None)` when absent or null, the text
/// when it is a string, and nothing — a payload error — on any other type.
pub open spec fn opt_str_field(j: Json, key: Seq<char>) -> Option<Option<Seq<char>>> {
    match json::get_spec(j, key) {
        None => Some(None),
        Some(v) => match v {
            Json::Null => Some(None),
            Json::Str(s) => Some(Some(s@)),
            _ => None,
        },
    }
}

/// A field that must be a number, null, or absent.
pub open spec fn num_field_ok(j: Json, key: Seq<char>) -> bool {
    match json::get_spec(j, key) {
        None => true,
        Some(v) => v is Num || v is Null,
    }
}

/// The producer-side capture instant a wire message names, read as an
/// integer; zero when it names none.
pub open spec fn wire_ts(j: Json) -> i64 {
    match json::get_spec(j, "timestamp"@) {
        Some(v) => match v {
            Json::Num(s) => text::num_int(s@) as i64,
            _ => 0,
        },
        None => 0,
    }
}

/// One wire message: `role` and `content` must be strings; `externalId`
/// and `source` may be strings; `timestamp` and `index` may be numbers; an
/// unrecognized source name falls back to the transport's own.
pub open spec fn parse_wire_msg(j: Json, default_source: Source) -> Option<MsgView> {
    match json::get_spec(j, "role"@) {
        Some(Json::Str(r)) => match json::get_spec(j, "content"@) {
            Some(Json::Str(c)) => match opt_str_field(j, "externalId"@) {
                Some(eid) => match opt_str_field(j, "source"@) {
                    Some(srcname) => if num_field_ok(j, "timestamp"@) && num_field_ok(
                        j,
                        "index"@,
                    ) {
                        Some(
                            (MsgView {
                                role: msg::role_of_name(r@),
                                content: c@,
                                external_id: eid,
                                conversation_id: None,
                                source: match srcname {
                                    Some(nm) => match msg::source_of_name(nm) {
                                        Some(s) => s,
                                        None => default_source,
                                    },
                                    None => default_source,
                                },
                                timestamp: wire_ts(j),
                            }),
                        )
                    } else {
                        None
                    },
                    None => None,
                },
                None => None,
            },
            _ => None,
        },
        _ => None,
    }
}

/// Every element of the wire `messages` array, in order; nothing when one
/// of them is ill-shaped.
pub open spec fn parse_wire_msgs(elems: Seq<Json>, default_source: Source) -> Option<
    Seq<MsgView>,
>
    decreases elems.len(),
{
    if elems.len() == 0 {
        Some(Seq::empty())
    } else {
        match parse_wire_msgs(elems.drop_last(), default_source) {
            Some(rest) => match parse_wire_msg(elems.last(), default_source) {
                Some(m) => Some(rest.push(m)),
                None => None,
            },
            None => None,
        }
    }
}

/// One wire capture payload: `serviceId` must be a string, `url` and
/// `type` may be strings, `messages` must be an array of wire messages.
pub open spec fn parse_batch_spec(doc: Json, default_source: Source) -> Option<
    crate::msg::BatchView,
> {
    match json::get_spec(doc, "serviceId"@) {
        Some(Json::Str(svc)) => match opt_str_field(doc, "url"@) {
            Some(url) => match opt_str_field(doc, "type"@) {
                Some(_) => match json::get_spec(doc, "messages"@) {
                    Some(Json::Arr(a)) => match parse_wire_msgs(a@, default_source) {
                        Some(ms) => Some(
                            (crate::msg::BatchView { service_id: svc@, url, messages: ms }),
                        ),
                        None => None,
                    },
                    _ => None,
                },
                None => None,
            },
            None => None,
        },
        _ => None,
    }
}

/// What a capture body names: its parsed batch when the bytes are one
/// well-shaped JSON payload.
pub open spec fn capture_payload_spec(bytes: Seq<u8>, default_source: Source) -> Option<
    crate::msg::BatchView,
> {
    match json::json_doc(bytes) {
        Some(doc) => parse_batch_spec(doc, default_source),
        None => None,
    }
}

/// Whether a field is a number, null, or absent.
fn num_ok(j: &Json, key: &str) -> (r: bool)
    ensures
        r == num_field_ok(*j, key@),
{
    match json::get(j, key) {
        None => true,
        Some(v) => match v {
            Json::Num(_) => true,
            Json::Null => true,
            _ => false,
        },
    }
}

/// Read the capture instant a wire message names.
fn wire_ts_exec(j: &Json) -> (r: i64)
    ensures
        r == wire_ts(*j),
{
    match json::get(j, "timestamp") {
        Some(v) => match json::as_num(v) {
            Some(s) => {
                let cv = text::to_chars(s.as_str());
                text::parse_int(&cv)
            },
            None => 0,
        },
        None => 0,
    }
}

/// Read one wire message.
fn parse_wire_msg_exec(j: &Json, default_source: Source) -> (r: Option<CapturedMessage>)
    ensures
        match r {
            Some(m) => parse_wire_msg(*j, default_source) == Some(m@),
            None => parse_wire_msg(*j, default_source) is None,
        },
{
    let role_str = match json::get(j, "role") {
        Some(v) => json::as_str(v),
        None => None,
    };
    let role_str = match role_str {
        Some(s) => s,
        None => {
            return None;
        },
    };
    let content = match json::get(j, "content") {
        Some(v) => json::as_str(v),
        None => None,
    };
    let content = match content {
        Some(s) => s,
        None => {
            return None;
        },
    };
    let eid: Option<String> = match json::get(j, "externalId") {
        None => None,
        Some(v) => match v {
            Json::Null => None,
            Json::Str(s) => Some(s.clone()),
            _ => {
                return None;
            },
        },
    };
    let src: Source = match json::get(j, "source") {
        None => default_source,
        Some(v) => match v {
            Json::Null => default_source,
            Json::Str(s) => match Source::of_name(s.as_str()) {
                Some(s) => s,
                None => default_source,
            },
            _ => {
                return None;
            },
        },
    };
    if !num_ok(j, "timestamp") {
        return None;
    }
    if !num_ok(j, "index") {
        return None;
    }
    let ts = wire_ts_exec(j);
    Some(
        CapturedMessage {
            role: Role::of_name(role_str.as_str()),
            content: content.clone(),
            external_id: eid,
            conversation_id: None,
            source: src,
            timestamp: ts,
        },
    )
}

/// Read one wire capture payload.
fn parse_batch_exec(doc: &Json, default_source: Source) -> (r: Option<CaptureBatch>)
    ensures
        match r {
            Some(b) => parse_batch_spec(*doc, default_source) == Some(b@),
            None => parse_batch_spec(*doc, default_source) is None,
        },
{
    let svc = match json::get(doc, "serviceId") {
        Some(v) => json::as_str(v),
        None => None,
    };
    let svc = match svc {
        Some(s) => s,
        None => {
            return None;
        },
    };
    let url: Option<String> = match json::get(doc, "url") {
        None => None,
        Some(v) => match v {
            Json::Null => None,
            Json::Str(s) => Some(s.clone()),
            _ => {
                return None;
            },
        },
    };
    match json::get(doc, "type") {
        None => {},
        Some(v) => match v {
            Json::Null => {},
            Json::Str(_) => {},
            _ => {
                return None;
            },
        },
    }
    let elems = match json::get(doc, "messages") {
        Some(v) => json::as_arr(v),
        None => None,
    };
    let elems = match elems {
        Some(a) => a,
        None => {
            return None;
        },
    };
    let n = elems.len();
    let mut out: Vec<CapturedMessage> = Vec::new();
    let mut i: usize = 0;
    proof {
        assert(parse_wire_msgs(elems@.take(0), default_source) =~= Some(
            Seq::<MsgView>::empty(),
        ));
        assert(msg::msgs_view(out@) =~= Seq::<MsgView>::empty());
    }
    while i < n
        invariant
            n == elems@.len(),
            i <= n,
            parse_wire_msgs(elems@.take(i as int), default_source) == Some(
                msg::msgs_view(out@),
            ),
            parse_wire_msgs(elems@, default_source) is None ==> parse_batch_spec(
                *doc,
                default_source,
            ) is None,
        decreases n - i,
    {
        proof {
            assert(elems@.take(i + 1).drop_last() =~= elems@.take(i as int));
            assert(elems@.take(i + 1).last() == elems@[i as int]);
        }
        match parse_wire_msg_exec(&elems[i], default_source) {
            Some(m) => {
                let ghost pre = out@;
                out.push(m);
                proof {
                    assert(msg::msgs_view(out@) =~= msg::msgs_view(pre).push(
                        msg::msgs_view(out@).last(),
                    ));
                }
            },
            None => {
                proof {
                    lemma_parse_wire_msgs_err(elems@, default_source, i as int);
                }
                return None;
            },
        }
        i = i + 1;
    }
    proof {
        assert(elems@.take(n as int) =~= elems@);
    }
    Some(CaptureBatch { service_id: svc.clone(), url, messages: out })
}

proof fn lemma_parse_wire_msgs_err(elems: Seq<Json>, default_source: Source, i: int)
    requires
        0 <= i < elems.len(),
        parse_wire_msg(elems[i], default_source) is None,
    ensures
        parse_wire_msgs(elems, default_source) is None,
    decreases elems.len(),
{
    if elems.len() > 0 {
        if i == elems.len() - 1 {
        } else {
            lemma_parse_wire_msgs_err(elems.drop_last(), default_source, i);
        }
    }
}

// --- The transport endpoints ---

/// The answer one capture delivery gets, together with what it changed.
pub struct CaptureReply {
    /// `200` on a merged payload, `400` on a malformed one, `404` for an
    /// unknown scheme path.
    pub status: u16,
    /// The response text.
    pub body: String,
    /// The service the payload named, when it parsed.
    pub service: Option<String>,
    /// The newly persisted messages: the notification the caller
    /// publishes, when there are any.
    pub stored: Vec<CapturedMessage>,
}

/// What one capture delivery does to the collector: a well-shaped payload
/// answers `200` and merges its batch; a malformed one answers `400`,
/// merges nothing, and leaves the log as it stands.
pub open spec fn capture_post(
    pre: CollectorView,
    post: CollectorView,
    body: Seq<u8>,
    transport: Source,
    ts: Seq<char>,
    r: CaptureReply,
) -> bool {
    match capture_payload_spec(body, transport) {
        Some(b) => {
            &&& r.status == 200
            &&& r.body@ == "{\"status\":\"ok\"}"@
            &&& (match r.service {
                Some(s) => s@ == b.service_id,
                None => false,
            })
            &&& post.seen == merge_seen(pre.seen, b.service_id, b.messages)
            &&& post.log == pre.log + merge_lines(pre.seen, b.service_id, b.url, b.messages, ts)
            &&& msg::msgs_view(r.stored@) == merge_kept(pre.seen, b.service_id, b.messages)
        },
        None => {
            &&& r.status == 400
            &&& r.body@ == "{\"error\":\"invalid capture payload\"}"@
            &&& r.service is None
            &&& post.seen == pre.seen
            &&& post.log == pre.log
            &&& r.stored@.len() == 0
        },
    }
}

impl Collector {
    /// Accept one capture payload — the shared endpoint body behind the
    /// custom-scheme and loopback-post transports — at a given persistence
    /// instant.
    pub fn handle_capture_at(&mut self, body: &[u8], transport: Source, ts: &str) -> (r:
        CaptureReply)
        ensures
            capture_post(old(self)@, final(self)@, body@, transport, ts@, r),
    {
        match json::parse_json(body) {
            Some(doc) => {
                match parse_batch_exec(&doc, transport) {
                    Some(batch) => {
                        let stored = self.merge_batch_at(&batch, ts);
                        let CaptureBatch { service_id, url: _, messages: _ } = batch;
                        CaptureReply {
                            status: 200,
                            body: String::from_str("{\"status\":\"ok\"}"),
                            service: Some(service_id),
                            stored,
                        }
                    },
                    None => {
                        CaptureReply {
                            status: 400,
                            body: String::from_str("{\"error\":\"invalid capture payload\"}"),
                            service: None,
                            stored: Vec::new(),
                        }
                    },
                }
            },
            None => {
                CaptureReply {
                    status: 400,
                    body: String::from_str("{\"error\":\"invalid capture payload\"}"),
                    service: None,
                    stored: Vec::new(),
                }
            },
        }
    }

    /// Accept one capture payload at the present instant.
    pub fn handle_capture(&mut self, body: &[u8], transport: Source) -> (r: CaptureReply)
        ensures
            exists|ts: Seq<char>|
                jsonl::clock_shaped(ts) && #[trigger] capture_post(
                    old(self)@,
                    final(self)@,
                    body@,
                    transport,
                    ts,
                    r,
                ),
    {
        let ts = jsonl::now_rfc3339();
        self.handle_capture_at(body, transport, ts.as_str())
    }

    /// Serve one custom-scheme request: the `/capture` path accepts a
    /// payload; every other path answers `404` and changes nothing.
    pub fn handle_scheme_at(&mut self, path: &str, body: &[u8], ts: &str) -> (r: CaptureReply)
        ensures
            path@ == "/capture"@ ==> capture_post(
                old(self)@,
                final(self)@,
                body@,
                Source::Protocol,
                ts@,
                r,
            ),
            path@ != "/capture"@ ==> {
                &&& r.status == 404
                &&& r.body@ == "Not Found"@
                &&& r.service is None
                &&& r.stored@.len() == 0
                &&& final(self)@.seen == old(self)@.seen
                &&& final(self)@.log == old(self)@.log
            },
    {
        if text::str_eq(path, "/capture") {
            self.handle_capture_at(body, Source::Protocol, ts)
        } else {
            CaptureReply {
                status: 404,
                body: String::from_str("Not Found"),
                service: None,
                stored: Vec::new(),
            }
        }
    }
}

// --- The beacon endpoint ---

/// The bytes of the one-pixel image the beacon always answers with.
pub open spec fn beacon_image_spec() -> Seq<u8> {
    seq![
        71u8, 73u8, 70u8, 56u8, 57u8, 97u8, 1u8, 0u8, 1u8, 0u8, 128u8, 0u8, 0u8, 255u8, 255u8,
        255u8, 0u8, 0u8, 0u8, 33u8, 249u8, 4u8, 1u8, 0u8, 0u8, 0u8, 0u8, 44u8, 0u8, 0u8, 0u8,
        0u8, 1u8, 0u8, 1u8, 0u8, 0u8, 2u8, 2u8, 68u8, 1u8, 0u8, 59u8,
    ]
}

/// The one-pixel image the beacon always answers with, whatever came in.
pub fn beacon_image() -> (r: Vec<u8>)
    ensures
        r@ == beacon_image_spec(),
{
    let r: Vec<u8> = vec![
        71u8, 73u8, 70u8, 56u8, 57u8, 97u8, 1u8, 0u8, 1u8, 0u8, 128u8, 0u8, 0u8, 255u8, 255u8,
        255u8, 0u8, 0u8, 0u8, 33u8, 249u8, 4u8, 1u8, 0u8, 0u8, 0u8, 0u8, 44u8, 0u8, 0u8, 0u8,
        0u8, 1u8, 0u8, 1u8, 0u8, 0u8, 2u8, 2u8, 68u8, 1u8, 0u8, 59u8,
    ];
    proof {
        assert(r@ =~= beacon_image_spec());
    }
    r
}

/// The single message a beacon query names, with the service it belongs
/// to: the percent-decoded parameter must parse as JSON; `s` falls back to
/// `unknown`, `r` to the unknown role, `c` to empty text, `t` to zero.
pub open spec fn beacon_msg_spec(d: Seq<u8>) -> Option<(Seq<char>, MsgView)> {
    match json::json_doc(pct::pct_decode(d)) {
        Some(p) => {
            let svc = match json::get_str_spec(p, "s"@) {
                Some(s) => s,
                None => "unknown"@,
            };
            let role = match json::get_str_spec(p, "r"@) {
                Some(r) => msg::role_of_name(r),
                None => Role::Unknown,
            };
            let content = match json::get_str_spec(p, "c"@) {
                Some(c) => c,
                None => Seq::empty(),
            };
            let t: i64 = match json::get_spec(p, "t"@) {
                Some(v) => match v {
                    Json::Num(s) => text::num_int(s@) as i64,
                    _ => 0,
                },
                None => 0,
            };
            Some(
                (
                    svc,
                    (MsgView {
                        role,
                        content,
                        external_id: None,
                        conversation_id: None,
                        source: Source::Beacon,
                        timestamp: t,
                    }),
                ),
            )
        },
        None => None,
    }
}

/// The answer one beacon request gets, together with what it changed.
pub struct BeaconReply {
    /// Always the one-pixel image, served with an image content type.
    pub image: Vec<u8>,
    /// The service the query named, when it parsed.
    pub service: Option<String>,
    /// The newly persisted messages.
    pub stored: Vec<CapturedMessage>,
}

impl Collector {
    /// Accept one image-beacon query value (still percent-encoded) at a
    /// given persistence instant. The answer is always the image: a
    /// malformed payload is silently a no-op.
    pub fn handle_beacon_at(&mut self, d: &[u8], ts: &str) -> (r: BeaconReply)
        ensures
            r.image@ == beacon_image_spec(),
            match beacon_msg_spec(d@) {
                Some((svc, m)) => {
                    &&& final(self)@.seen == merge_seen(old(self)@.seen, svc, seq![m])
                    &&& final(self)@.log == old(self)@.log + merge_lines(
                        old(self)@.seen,
                        svc,
                        None,
                        seq![m],
                        ts@,
                    )
                    &&& msg::msgs_view(r.stored@) == merge_kept(old(self)@.seen, svc, seq![m])
                    &&& (match r.service {
                        Some(s) => s@ == svc,
                        None => false,
                    })
                },
                None => {
                    &&& final(self)@.seen == old(self)@.seen
                    &&& final(self)@.log == old(self)@.log
                    &&& r.stored@.len() == 0
                    &&& r.service is None
                },
            },
    {
        let decoded = pct::pct_decode_bytes(d);
        match json::parse_json(decoded.as_slice()) {
            Some(p) => {
                let svc: String = match json::get_str(&p, "s") {
                    Some(s) => s.clone(),
                    None => String::from_str("unknown"),
                };
                let role = match json::get_str(&p, "r") {
                    Some(r) => Role::of_name(r.as_str()),
                    None => Role::Unknown,
                };
                let content: String = match json::get_str(&p, "c") {
                    Some(c) => c.clone(),
                    None => String::new(),
                };
                let t: i64 = match json::get(&p, "t") {
                    Some(v) => match json::as_num(v) {
                        Some(s) => {
                            let cv = text::to_chars(s.as_str());
                            text::parse_int(&cv)
                        },
                        None => 0,
                    },
                    None => 0,
                };
                let m = CapturedMessage {
                    role,
                    content,
                    external_id: None,
                    conversation_id: None,
                    source: Source::Beacon,
                    timestamp: t,
                };
                let mut messages: Vec<CapturedMessage> = Vec::new();
                messages.push(m);
                let batch = CaptureBatch { service_id: svc, url: None, messages };
                proof {
                    let (svc_s, m_s) = beacon_msg_spec(d@).unwrap();
                    assert(batch@.messages =~= seq![m_s]);
                }
                let stored = self.merge_batch_at(&batch, ts);
                let CaptureBatch { service_id, url: _, messages: _ } = batch;
                BeaconReply { image: beacon_image(), service: Some(service_id), stored }
            },
            None => {
                BeaconReply { image: beacon_image(), service: None, stored: Vec::new() }
            },
        }
    }

    /// Accept one image-beacon query value at the present instant.
    pub fn handle_beacon(&mut self, d: &[u8]) -> (r: BeaconReply)
        ensures
            r.image@ == beacon_image_spec(),
            match beacon_msg_spec(d@) {
                Some((svc, m)) => {
                    &&& final(self)@.seen == merge_seen(old(self)@.seen, svc, seq![m])
                    &&& msg::msgs_view(r.stored@) == merge_kept(old(self)@.seen, svc, seq![m])
                    &&& exists|ts: Seq<char>|
                        jsonl::clock_shaped(ts) && final(self)@.log == old(self)@.log
                            + #[trigger] merge_lines(
                            old(self)@.seen,
                            svc,
                            None,
                            seq![m],
                            ts,
                        )
                },
                None => {
                    &&& final(self)@.seen == old(self)@.seen
                    &&& final(self)@.log == old(self)@.log
                    &&& r.stored@.len() == 0
                },
            },
    {
        let ts = jsonl::now_rfc3339();
        self.handle_beacon_at(d, ts.as_str())
    }
}

// --- Laws of the merge step ---

proof fn lemma_seen_has_push(
    seen: Seq<(Seq<char>, KeyView)>,
    p: (Seq<char>, KeyView),
    service: Seq<char>,
    k: KeyView,
)
    ensures
        seen_has(seen.push(p), service, k) <==> (seen_has(seen, service, k) || (p.0 == service
            && p.1 == k)),
{
    if seen_has(seen, service, k) {
        let i = choose|i: int| 0 <= i < seen.len() && seen[i].0 == service && seen[i].1 == k;
        assert(seen.push(p)[i] == seen[i]);
    }
    if p.0 == service && p.1 == k {
        assert(seen.push(p)[seen.len() as int] == p);
    }
    if seen_has(seen.push(p), service, k) {
        let i = choose|i: int|
            0 <= i < seen.push(p).len() && seen.push(p)[i].0 == service && seen.push(p)[i].1
                == k;
        if i < seen.len() {
            assert(seen[i] == seen.push(p)[i]);
        }
    }
}

proof fn lemma_merge_seen_mono(
    seen: Seq<(Seq<char>, KeyView)>,
    service: Seq<char>,
    msgs: Seq<MsgView>,
    service2: Seq<char>,
    k: KeyView,
)
    requires
        seen_has(seen, service2, k),
    ensures
        seen_has(merge_seen(seen, service, msgs), service2, k),
    decreases msgs.len(),
{
    if msgs.len() > 0 {
        let k0 = msg::key_spec(msgs[0]);
        if seen_has(seen, service, k0) {
            lemma_merge_seen_mono(seen, service, msgs.drop_first(), service2, k);
        } else {
            lemma_seen_has_push(seen, (service, k0), service2, k);
            lemma_merge_seen_mono(seen.push((service, k0)), service, msgs.drop_first(), service2, k);
        }
    }
}

proof fn lemma_merge_seen_covers(
    seen: Seq<(Seq<char>, KeyView)>,
    service: Seq<char>,
    msgs: Seq<MsgView>,
    j: int,
)
    requires
        0 <= j < msgs.len(),
    ensures
        seen_has(merge_seen(seen, service, msgs), service, msg::key_spec(msgs[j])),
    decreases msgs.len(),
{
    let k0 = msg::key_spec(msgs[0]);
    let s2 = if seen_has(seen, service, k0) {
        seen
    } else {
        seen.push((service, k0))
    };
    if j == 0 {
        if seen_has(seen, service, k0) {
            lemma_merge_seen_mono(seen, service, msgs.drop_first(), service, k0);
        } else {
            lemma_seen_has_push(seen, (service, k0), service, k0);
            lemma_merge_seen_mono(s2, service, msgs.drop_first(), service, k0);
        }
    } else {
        assert(msgs.drop_first()[j - 1] == msgs[j]);
        lemma_merge_seen_covers(s2, service, msgs.drop_first(), j - 1);
    }
}

proof fn lemma_merge_lines_none_new(
    seen: Seq<(Seq<char>, KeyView)>,
    service: Seq<char>,
    url: Option<Seq<char>>,
    msgs: Seq<MsgView>,
    ts: Seq<char>,
)
    requires
        forall|j: int| 0 <= j < msgs.len() ==> seen_has(seen, service, msg::key_spec(msgs[j])),
    ensures
        merge_lines(seen, service, url, msgs, ts) == Seq::<Seq<char>>::empty(),
    decreases msgs.len(),
{
    if msgs.len() > 0 {
        assert(seen_has(seen, service, msg::key_spec(msgs[0])));
        assert(forall|j: int|
            0 <= j < msgs.drop_first().len() ==> msgs.drop_first()[j] == msgs[j + 1]);
        lemma_merge_lines_none_new(seen, service, url, msgs.drop_first(), ts);
    }
}

/// Dedup idempotence: once a run of messages has been merged, delivering
/// messages with the same keys again — over any transport, with any page
/// address, at any later instant — appends not one line to the log.
pub proof fn lemma_merge_idempotent(
    seen: Seq<(Seq<char>, KeyView)>,
    service: Seq<char>,
    msgs: Seq<MsgView>,
    again: Seq<MsgView>,
    url2: Option<Seq<char>>,
    ts2: Seq<char>,
)
    requires
        forall|j: int|
            0 <= j < again.len() ==> exists|i: int|
                0 <= i < msgs.len() && msg::key_spec(#[trigger] again[j]) == msg::key_spec(
                    msgs[i],
                ),
    ensures
        merge_lines(merge_seen(seen, service, msgs), service, url2, again, ts2) == Seq::<
            Seq<char>,
        >::empty(),
{
    let s2 = merge_seen(seen, service, msgs);
    assert forall|j: int| 0 <= j < again.len() implies seen_has(
        s2,
        service,
        msg::key_spec(again[j]),
    ) by {
        let i = choose|i: int|
            0 <= i < msgs.len() && msg::key_spec(again[j]) == msg::key_spec(msgs[i]);
        lemma_merge_seen_covers(seen, service, msgs, i);
    }
    lemma_merge_lines_none_new(s2, service, url2, again, ts2);
}

} // verus!
