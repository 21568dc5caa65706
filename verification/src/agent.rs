//! The page agent: the capture state owned by one hosted page for one page
//! lifetime.
//!
//! It selects the network adapter and the fallback selector table by
//! hostname once, keeps the per-page dedup set and the outbound queue, and
//! is driven from outside: an intercepted response or a scraped snapshot
//! comes in, delivery outcomes come back. A message with a given dedup key
//! is queued at most once per page lifetime; a batch whose delivery fails
//! is not dropped but stays at the head of the queue for the next flush.

use vstd::prelude::*;
use vstd::string::StringSliceAdditionalSpecFns;
use crate::jsonl;
use crate::msg;
use crate::msg::BatchView;
use crate::msg::CaptureBatch;
use crate::msg::CapturedMessage;
use crate::msg::KeyView;
use crate::msg::MsgKey;
use crate::msg::MsgView;
use crate::msg::Role;
use crate::msg::Source;
use crate::pct;
use crate::service;
use crate::service::ServiceKind;
use crate::text;

verus! {

/// The transports a batch can leave the page through, cheapest first. The
/// agent's own flush walks the first three in order; the image beacon is
/// driven by the host's periodic queue drain instead.
#[derive(Clone, Copy, PartialEq, Eq, Structural, Debug)]
pub enum DeliveryChannel {
    /// A synchronous in-process call; available only in the host's own
    /// page, and expected to fail fast anywhere else.
    Direct,
    /// A request against the host-registered private scheme; immune to the
    /// page's network policy.
    CustomScheme,
    /// A JSON post to the loopback collector; a strict page policy may
    /// block it.
    LoopbackHttp,
    /// A fire-and-forget image request; exempt from the policy that blocks
    /// the loopback post, but unconfirmed.
    ImageBeacon,
}

/// The channel the agent tries after `c` fails, if any.
pub open spec fn fallback_spec(c: DeliveryChannel) -> Option<DeliveryChannel> {
    match c {
        DeliveryChannel::Direct => Some(DeliveryChannel::CustomScheme),
        DeliveryChannel::CustomScheme => Some(DeliveryChannel::LoopbackHttp),
        DeliveryChannel::LoopbackHttp => None,
        DeliveryChannel::ImageBeacon => None,
    }
}

impl DeliveryChannel {
    /// The channel a flush starts with.
    pub fn first() -> (r: DeliveryChannel)
        ensures
            r == DeliveryChannel::Direct,
    {
        DeliveryChannel::Direct
    }

    /// The channel the agent falls back to when this one fails.
    pub fn fallback(&self) -> (r: Option<DeliveryChannel>)
        ensures
            r == fallback_spec(*self),
    {
        match self {
            DeliveryChannel::Direct => Some(DeliveryChannel::CustomScheme),
            DeliveryChannel::CustomScheme => Some(DeliveryChannel::LoopbackHttp),
            DeliveryChannel::LoopbackHttp => None,
            DeliveryChannel::ImageBeacon => None,
        }
    }
}

/// A key stands in the page's dedup set.
pub open spec fn has_kv(seen: Seq<KeyView>, k: KeyView) -> bool {
    exists|i: int| 0 <= i < seen.len() && seen[i] == k
}

/// The dedup set after taking a message run in order.
pub open spec fn keys_after(seen: Seq<KeyView>, msgs: Seq<MsgView>) -> Seq<KeyView>
    decreases msgs.len(),
{
    if msgs.len() == 0 {
        seen
    } else {
        let k = msg::key_spec(msgs[0]);
        let s2 = if has_kv(seen, k) {
            seen
        } else {
            seen.push(k)
        };
        keys_after(s2, msgs.drop_first())
    }
}

/// The messages of a run whose key is not yet in the dedup set, in order.
pub open spec fn fresh_msgs(seen: Seq<KeyView>, msgs: Seq<MsgView>) -> Seq<MsgView>
    decreases msgs.len(),
{
    if msgs.len() == 0 {
        Seq::empty()
    } else {
        let k = msg::key_spec(msgs[0]);
        if has_kv(seen, k) {
            fresh_msgs(seen, msgs.drop_first())
        } else {
            seq![msgs[0]] + fresh_msgs(seen.push(k), msgs.drop_first())
        }
    }
}

/// One scraped conversation turn, as the fallback pass reads it.
pub struct DomItem {
    pub role: Role,
    pub content: String,
}

/// The mathematical shape of a scraped turn.
pub struct DomItemView {
    pub role: Role,
    pub content: Seq<char>,
}

impl View for DomItem {
    type V = DomItemView;

    open spec fn view(&self) -> DomItemView {
        DomItemView { role: self.role, content: self.content@ }
    }
}

/// The message one scraped turn yields before dedup: its trimmed text,
/// unless that is empty or the turn's speaker is unknown.
pub open spec fn dom_msg_of(it: DomItemView, now: i64) -> Option<MsgView> {
    let c = text::trim_spec(it.content);
    if c.len() > 0 && it.role != Role::Unknown {
        Some(
            (MsgView {
                role: it.role,
                content: c,
                external_id: None,
                conversation_id: None,
                source: Source::Dom,
                timestamp: now,
            }),
        )
    } else {
        None
    }
}

/// The dedup set after one fallback pass over scraped turns.
pub open spec fn dom_keys_after(seen: Seq<KeyView>, items: Seq<DomItemView>, now: i64) -> Seq<
    KeyView,
>
    decreases items.len(),
{
    if items.len() == 0 {
        seen
    } else {
        let s2 = match dom_msg_of(items[0], now) {
            Some(m) => {
                let k = msg::key_spec(m);
                if has_kv(seen, k) {
                    seen
                } else {
                    seen.push(k)
                }
            },
            None => seen,
        };
        dom_keys_after(s2, items.drop_first(), now)
    }
}

/// The messages one fallback pass captures: each usable turn whose content
/// hash is new, in order.
pub open spec fn dom_fresh(seen: Seq<KeyView>, items: Seq<DomItemView>, now: i64) -> Seq<
    MsgView,
>
    decreases items.len(),
{
    if items.len() == 0 {
        Seq::empty()
    } else {
        match dom_msg_of(items[0], now) {
            Some(m) => {
                let k = msg::key_spec(m);
                if has_kv(seen, k) {
                    dom_fresh(seen, items.drop_first(), now)
                } else {
                    seq![m] + dom_fresh(seen.push(k), items.drop_first(), now)
                }
            },
            None => dom_fresh(seen, items.drop_first(), now),
        }
    }
}

/// The mathematical shape of a page agent.
#[verifier::ext_equal]
pub struct AgentView {
    pub service_id: Seq<char>,
    pub kind: Option<ServiceKind>,
    pub has_dom_table: bool,
    pub seen: Seq<KeyView>,
    pub queue: Seq<BatchView>,
    pub net_active: bool,
}

/// The capture state of one hosted page, for one page lifetime: torn down
/// with the page on navigation, never persisted.
pub struct PageAgent {
    service_id: String,
    kind: Option<ServiceKind>,
    has_dom_table: bool,
    seen: Vec<MsgKey>,
    queue: Vec<CaptureBatch>,
    net_active: bool,
}

impl View for PageAgent {
    type V = AgentView;

    closed spec fn view(&self) -> AgentView {
        AgentView {
            service_id: self.service_id@,
            kind: self.kind,
            has_dom_table: self.has_dom_table,
            seen: self.seen@.map_values(|k: MsgKey| k@),
            queue: self.queue@.map_values(|b: CaptureBatch| b@),
            net_active: self.net_active,
        }
    }
}

impl PageAgent {
    /// A fresh agent for one page: the network adapter and the fallback
    /// table are selected by hostname once, the dedup set and the queue
    /// start empty.
    pub fn new(hostname: &str) -> (a: PageAgent)
        ensures
            a@.service_id == hostname@,
            a@.kind == service::service_for_spec(hostname@),
            a@.has_dom_table == (service::dom_table_spec(hostname@) is Some),
            a@.seen == Seq::<KeyView>::empty(),
            a@.queue == Seq::<BatchView>::empty(),
            a@.net_active == false,
    {
        let kind = service::service_for(hostname);
        let has_dom_table = match service::dom_selectors(hostname) {
            Some(_) => true,
            None => false,
        };
        let a = PageAgent {
            service_id: String::from_str(hostname),
            kind,
            has_dom_table,
            seen: Vec::new(),
            queue: Vec::new(),
            net_active: false,
        };
        proof {
            assert(a@.seen =~= Seq::<KeyView>::empty());
            assert(a@.queue =~= Seq::<BatchView>::empty());
        }
        a
    }

    /// A fresh agent whose adapter the host names itself: for a hosted
    /// surface whose hostname the built-in table does not carry, the host
    /// can still say which wire style the vendor speaks and whether it
    /// supplies its own fallback selectors to the scraping side.
    pub fn with_kind(hostname: &str, kind: Option<ServiceKind>, has_dom_table: bool) -> (a:
        PageAgent)
        ensures
            a@.service_id == hostname@,
            a@.kind == kind,
            a@.has_dom_table == has_dom_table,
            a@.seen == Seq::<KeyView>::empty(),
            a@.queue == Seq::<BatchView>::empty(),
            a@.net_active == false,
    {
        let a = PageAgent {
            service_id: String::from_str(hostname),
            kind,
            has_dom_table,
            seen: Vec::new(),
            queue: Vec::new(),
            net_active: false,
        };
        proof {
            assert(a@.seen =~= Seq::<KeyView>::empty());
            assert(a@.queue =~= Seq::<BatchView>::empty());
        }
        a
    }

    /// The network adapter this page uses, if any.
    pub fn kind(&self) -> (r: Option<ServiceKind>)
        ensures
            r == self@.kind,
    {
        self.kind
    }

    /// Whether the fallback selector table has an entry for this page.
    pub fn has_dom_table(&self) -> (r: bool)
        ensures
            r == self@.has_dom_table,
    {
        self.has_dom_table
    }

    /// Whether network capture has produced results on this page; while it
    /// has, the fallback pass stands down.
    pub fn net_active(&self) -> (r: bool)
        ensures
            r == self@.net_active,
    {
        self.net_active
    }

    /// How many batches wait for delivery.
    pub fn queue_len(&self) -> (n: usize)
        ensures
            n == self@.queue.len(),
    {
        self.queue.len()
    }

    /// Whether `k` is in the page's dedup set.
    fn seen_key(&self, k: &MsgKey) -> (r: bool)
        ensures
            r == has_kv(self@.seen, k@),
    {
        let n = self.seen.len();
        let mut i: usize = 0;
        while i < n
            invariant
                n == self.seen@.len(),
                i <= n,
                forall|j: int| 0 <= j < i ==> #[trigger] self.seen@[j]@ != k@,
            decreases n - i,
        {
            if msg::key_eq(&self.seen[i], k) {
                proof {
                    assert(self@.seen[i as int] == k@);
                }
                return true;
            }
            i = i + 1;
        }
        proof {
            assert forall|j: int| 0 <= j < self@.seen.len() implies self@.seen[j] != k@ by {
                assert(self@.seen[j] == self.seen@[j]@);
            }
        }
        false
    }

    /// Take one adapter result: each message whose dedup key is new joins
    /// the outbound queue as one batch, and its key joins the dedup set —
    /// so a key is queued at most once per page lifetime. Returns whether
    /// anything was queued.
    pub fn enqueue_messages(&mut self, page_url: Option<&String>, msgs: Vec<CapturedMessage>) -> (queued: bool)
        ensures
            final(self)@.seen == keys_after(old(self)@.seen, msg::msgs_view(msgs@)),
            final(self)@.queue == (if fresh_msgs(old(self)@.seen, msg::msgs_view(msgs@)).len()
                > 0 {
                old(self)@.queue.push(
                    (BatchView {
                        service_id: old(self)@.service_id,
                        url: match page_url {
                            Some(u) => Some(u@),
                            None => None,
                        },
                        messages: fresh_msgs(old(self)@.seen, msg::msgs_view(msgs@)),
                    }),
                )
            } else {
                old(self)@.queue
            }),
            queued == (fresh_msgs(old(self)@.seen, msg::msgs_view(msgs@)).len() > 0),
            final(self)@.service_id == old(self)@.service_id,
            final(self)@.kind == old(self)@.kind,
            final(self)@.has_dom_table == old(self)@.has_dom_table,
            final(self)@.net_active == old(self)@.net_active,
    {
        let ghost seen0 = self@.seen;
        let ghost all = msg::msgs_view(msgs@);
        let n = msgs.len();
        let mut i: usize = 0;
        let mut kept: Vec<CapturedMessage> = Vec::new();
        proof {
            assert(all.skip(0) =~= all);
            assert(msg::msgs_view(kept@) =~= Seq::<MsgView>::empty());
        }
        while i < n
            invariant
                n == msgs@.len(),
                i <= n,
                all == msg::msgs_view(msgs@),
                keys_after(seen0, all) == keys_after(self@.seen, all.skip(i as int)),
                fresh_msgs(seen0, all) == msg::msgs_view(kept@) + fresh_msgs(
                    self@.seen,
                    all.skip(i as int),
                ),
                self@.service_id == old(self)@.service_id,
                self@.kind == old(self)@.kind,
                self@.has_dom_table == old(self)@.has_dom_table,
                self@.net_active == old(self)@.net_active,
                self@.queue == old(self)@.queue,
            decreases n - i,
        {
            let m = &msgs[i];
            let k = msg::msg_key(m);
            proof {
                assert(all.skip(i as int)[0] == all[i as int]);
                assert(all[i as int] == msgs@[i as int]@);
                assert(all.skip(i as int).drop_first() =~= all.skip(i + 1));
            }
            if !self.seen_key(&k) {
                let ghost pre_seen = self@.seen;
                let ghost pre_kept = kept@;
                self.seen.push(k);
                kept.push(m.dup());
                proof {
                    assert(self@.seen =~= pre_seen.push(msg::key_spec(all[i as int])));
                    assert(msg::msgs_view(kept@) =~= msg::msgs_view(pre_kept).push(
                        all[i as int],
                    ));
                    assert(msg::msgs_view(pre_kept) + (seq![all[i as int]] + fresh_msgs(
                        self@.seen,
                        all.skip(i + 1),
                    )) =~= msg::msgs_view(kept@) + fresh_msgs(self@.seen, all.skip(i + 1)));
                }
            }
            i = i + 1;
        }
        proof {
            assert(all.skip(n as int) =~= Seq::<MsgView>::empty());
            assert(msg::msgs_view(kept@) + Seq::<MsgView>::empty() =~= msg::msgs_view(kept@));
        }
        if kept.len() > 0 {
            let url: Option<String> = match page_url {
                Some(u) => Some(u.clone()),
                None => None,
            };
            let batch = CaptureBatch { service_id: self.service_id.clone(), url, messages: kept };
            let ghost pre_queue = self@.queue;
            let ghost bv = batch@;
            self.queue.push(batch);
            proof {
                assert(self@.queue =~= pre_queue.push(bv));
            }
            true
        } else {
            false
        }
    }

    /// The messages one intercepted response yields for this page: nothing
    /// without a network adapter, nothing when the address is not watched,
    /// else what the pipeline extracts.
    pub open spec fn response_msgs_spec(
        a: AgentView,
        url: Seq<char>,
        ct: Seq<char>,
        chunks: Seq<Seq<u8>>,
        req: Option<Seq<u8>>,
        now: i64,
    ) -> Seq<MsgView> {
        match a.kind {
            Some(k) => if service::url_match_spec(k, url) {
                service::response_messages_spec(k, ct, chunks, req, now)
            } else {
                Seq::empty()
            },
            None => Seq::empty(),
        }
    }

    /// Take one intercepted network response — the page's original response
    /// is never delayed or altered; this works on a copy of its body. The
    /// address is checked against the adapter's watch pattern, the body is
    /// decoded by its content type and extracted by the adapter's rules,
    /// and whatever is new joins the queue. Any extracted message marks
    /// network capture active, which stands the fallback pass down.
    pub fn on_response(
        &mut self,
        url: &str,
        content_type: &str,
        request_body: Option<&str>,
        chunks: &Vec<Vec<u8>>,
        page_url: Option<&String>,
        now_ms: i64,
    ) -> (queued: bool)
        requires
            now_ms > i64::MIN,
        ensures
            ({
                let msgs = Self::response_msgs_spec(
                    old(self)@,
                    url@,
                    content_type@,
                    chunks.deep_view(),
                    crate::adapters::body_view(request_body),
                    now_ms,
                );
                let fresh = fresh_msgs(old(self)@.seen, msgs);
                &&& final(self)@.seen == keys_after(old(self)@.seen, msgs)
                &&& final(self)@.queue == (if fresh.len() > 0 {
                    old(self)@.queue.push(
                        (BatchView {
                            service_id: old(self)@.service_id,
                            url: match page_url {
                                Some(u) => Some(u@),
                                None => None,
                            },
                            messages: fresh,
                        }),
                    )
                } else {
                    old(self)@.queue
                })
                &&& queued == (fresh.len() > 0)
                &&& final(self)@.net_active == (old(self)@.net_active || msgs.len() > 0)
                &&& final(self)@.service_id == old(self)@.service_id
                &&& final(self)@.kind == old(self)@.kind
                &&& final(self)@.has_dom_table == old(self)@.has_dom_table
            }),
    {
        let kind = self.kind;
        match kind {
            Some(k) => {
                let msgs = service::process_response(
                    k,
                    url,
                    content_type,
                    request_body,
                    chunks,
                    now_ms,
                );
                let produced = msgs.len() > 0;
                proof {
                    if produced {
                        assert(msg::msgs_view(msgs@).len() > 0);
                    } else {
                        assert(msg::msgs_view(msgs@).len() == 0);
                    }
                }
                let queued = self.enqueue_messages(page_url, msgs);
                if produced {
                    self.net_active = true;
                }
                queued
            },
            None => {
                proof {
                    assert(fresh_msgs(old(self)@.seen, Seq::<MsgView>::empty())
                        =~= Seq::<MsgView>::empty());
                }
                false
            },
        }
    }

    /// Note that network capture produced results, which stands the
    /// fallback pass down.
    pub fn set_net_active(&mut self)
        ensures
            final(self)@ == (AgentView { net_active: true, ..old(self)@ }),
    {
        self.net_active = true;
        proof {
            assert(self@ =~= (AgentView { net_active: true, ..old(self)@ }));
        }
    }

    /// One fallback pass over scraped turns: nothing while the page has no
    /// selector table entry or network capture is active; otherwise each
    /// usable turn whose content hash is new is queued as one batch.
    /// Returns how many turns were captured.
    pub fn dom_pass(&mut self, page_url: Option<&String>, items: &Vec<DomItem>, now_ms: i64) -> (captured: usize)
        ensures
            (!old(self)@.has_dom_table || old(self)@.net_active) ==> final(self)@ == old(
                self,
            )@ && captured == 0,
            (old(self)@.has_dom_table && !old(self)@.net_active) ==> {
                let items_v = items@.map_values(|it: DomItem| it@);
                let fresh = dom_fresh(old(self)@.seen, items_v, now_ms);
                &&& final(self)@.seen == dom_keys_after(old(self)@.seen, items_v, now_ms)
                &&& final(self)@.queue == (if fresh.len() > 0 {
                    old(self)@.queue.push(
                        (BatchView {
                            service_id: old(self)@.service_id,
                            url: match page_url {
                                Some(u) => Some(u@),
                                None => None,
                            },
                            messages: fresh,
                        }),
                    )
                } else {
                    old(self)@.queue
                })
                &&& captured == fresh.len()
                &&& final(self)@.service_id == old(self)@.service_id
                &&& final(self)@.kind == old(self)@.kind
                &&& final(self)@.has_dom_table == old(self)@.has_dom_table
                &&& final(self)@.net_active == old(self)@.net_active
            },
    {
        if !self.has_dom_table || self.net_active {
            return 0;
        }
        let ghost seen0 = self@.seen;
        let ghost items_v = items@.map_values(|it: DomItem| it@);
        let n = items.len();
        let mut i: usize = 0;
        let mut kept: Vec<CapturedMessage> = Vec::new();
        proof {
            assert(items_v.skip(0) =~= items_v);
            assert(msg::msgs_view(kept@) =~= Seq::<MsgView>::empty());
        }
        while i < n
            invariant
                n == items@.len(),
                items_v == items@.map_values(|it: DomItem| it@),
                i <= n,
                dom_keys_after(seen0, items_v, now_ms) == dom_keys_after(
                    self@.seen,
                    items_v.skip(i as int),
                    now_ms,
                ),
                dom_fresh(seen0, items_v, now_ms) == msg::msgs_view(kept@) + dom_fresh(
                    self@.seen,
                    items_v.skip(i as int),
                    now_ms,
                ),
                self@.service_id == old(self)@.service_id,
                self@.kind == old(self)@.kind,
                self@.has_dom_table == old(self)@.has_dom_table,
                self@.net_active == old(self)@.net_active,
                self@.queue == old(self)@.queue,
            decreases n - i,
        {
            let it = &items[i];
            proof {
                assert(items_v.skip(i as int)[0] == items_v[i as int]);
                assert(items_v[i as int] == items@[i as int]@);
                assert(items_v.skip(i as int).drop_first() =~= items_v.skip(i + 1));
            }
            let tv = text::to_chars(it.content.as_str());
            let trimmed = text::trim_chars(&tv);
            if trimmed.len() > 0 && !matches!(it.role, Role::Unknown) {
                let content = text::chars_to_string(&trimmed);
                let m = CapturedMessage {
                    role: it.role,
                    content,
                    external_id: None,
                    conversation_id: None,
                    source: Source::Dom,
                    timestamp: now_ms,
                };
                proof {
                    assert(dom_msg_of(items_v[i as int], now_ms) == Some(m@));
                }
                let k = msg::msg_key(&m);
                if !self.seen_key(&k) {
                    let ghost pre_seen = self@.seen;
                    let ghost pre_kept = kept@;
                    self.seen.push(k);
                    kept.push(m);
                    proof {
                        assert(self@.seen =~= pre_seen.push(msg::key_spec(
                            dom_msg_of(items_v[i as int], now_ms).unwrap(),
                        )));
                        assert(msg::msgs_view(kept@) =~= msg::msgs_view(pre_kept).push(
                            dom_msg_of(items_v[i as int], now_ms).unwrap(),
                        ));
                        assert(msg::msgs_view(pre_kept) + (seq![
                            dom_msg_of(items_v[i as int], now_ms).unwrap(),
                        ] + dom_fresh(self@.seen, items_v.skip(i + 1), now_ms)) =~= msg::msgs_view(
                            kept@,
                        ) + dom_fresh(self@.seen, items_v.skip(i + 1), now_ms));
                    }
                }
            } else {
                proof {
                    assert(dom_msg_of(items_v[i as int], now_ms) is None);
                }
            }
            i = i + 1;
        }
        proof {
            assert(items_v.skip(n as int) =~= Seq::<DomItemView>::empty());
            assert(msg::msgs_view(kept@) + Seq::<MsgView>::empty() =~= msg::msgs_view(kept@));
        }
        let captured = kept.len();
        if captured > 0 {
            let url: Option<String> = match page_url {
                Some(u) => Some(u.clone()),
                None => None,
            };
            let batch = CaptureBatch { service_id: self.service_id.clone(), url, messages: kept };
            let ghost pre_queue = self@.queue;
            let ghost bv = batch@;
            self.queue.push(batch);
            proof {
                assert(self@.queue =~= pre_queue.push(bv));
            }
        }
        captured
    }

    /// The batch the next flush should deliver: the head of the queue.
    pub fn next_batch(&self) -> (r: Option<&CaptureBatch>)
        ensures
            match r {
                Some(b) => self@.queue.len() > 0 && b@ == self@.queue[0],
                None => self@.queue.len() == 0,
            },
    {
        if self.queue.len() > 0 {
            Some(&self.queue[0])
        } else {
            None
        }
    }

    /// Take one delivery outcome for the head batch. Success retires it;
    /// an explicit failure keeps it at the head, to be retried by the next
    /// periodic flush — a batch is never dropped.
    pub fn on_delivery(&mut self, delivered: bool)
        requires
            old(self)@.queue.len() > 0,
        ensures
            delivered ==> final(self)@ == (AgentView {
                queue: old(self)@.queue.drop_first(),
                ..old(self)@
            }),
            !delivered ==> final(self)@ == old(self)@,
    {
        if delivered {
            let _ = self.queue.remove(0);
            proof {
                assert(self.queue@.map_values(|b: CaptureBatch| b@) =~= old(
                    self,
                )@.queue.drop_first());
                assert(self@ =~= (AgentView {
                    queue: old(self)@.queue.drop_first(),
                    ..old(self)@
                }));
            }
        }
    }
}

// --- The host-driven beacon drain ---

/// The compact single-message payload the beacon carries, before
/// percent encoding: service, role, content cut to 1500 characters, and
/// the drain instant.
pub open spec fn beacon_payload_chars(service: Seq<char>, m: MsgView, now: i64) -> Seq<char> {
    "{\"s\":"@ + jsonl::quoted(service) + ",\"r\":"@ + jsonl::quoted(msg::role_name_spec(m.role))
        + ",\"c\":"@ + jsonl::quoted(
        if m.content.len() <= 1500 {
            m.content
        } else {
            m.content.take(1500)
        },
    ) + ",\"t\":"@ + text::dec_text(if now < 0 {
        0
    } else {
        now as int
    }) + "}"@
}

/// The query value one drained message becomes: its payload, percent
/// encoded.
pub open spec fn beacon_query_value(service: Seq<char>, m: MsgView, now: i64) -> Seq<char> {
    pct::pct_encode(vstd::utf8::encode_utf8(beacon_payload_chars(service, m, now))).map(
        |i: int, b: u8| b as char,
    )
}

/// The query values one batch drains to, one per message, in order.
pub open spec fn drain_batch_spec(b: BatchView, now: i64) -> Seq<Seq<char>> {
    Seq::new(b.messages.len(), |i: int| beacon_query_value(b.service_id, b.messages[i], now))
}

/// The query values a whole queue drains to, batch by batch.
pub open spec fn drain_spec(queue: Seq<BatchView>, now: i64) -> Seq<Seq<char>>
    decreases queue.len(),
{
    if queue.len() == 0 {
        Seq::empty()
    } else {
        drain_spec(queue.drop_last(), now) + drain_batch_spec(queue.last(), now)
    }
}

impl PageAgent {
    /// Drain the whole queue into beacon query values, one per message:
    /// the host's policy-bypass path, trading batching for delivery. The
    /// queue empties; the dedup set stays, so nothing drains twice.
    pub fn drain_beacon_payloads(&mut self, now_ms: i64) -> (r: Vec<String>)
        ensures
            r@.map_values(|s: String| s@) == drain_spec(old(self)@.queue, now_ms),
            final(self)@ == (AgentView { queue: Seq::empty(), ..old(self)@ }),
    {
        let ghost q0 = self@.queue;
        let mut r: Vec<String> = Vec::new();
        let nb = self.queue.len();
        let mut bi: usize = 0;
        proof {
            assert(r@.map_values(|s: String| s@) =~= Seq::<Seq<char>>::empty());
            assert(drain_spec(q0.take(0), now_ms) =~= Seq::<Seq<char>>::empty());
        }
        while bi < nb
            invariant
                nb == self.queue@.len(),
                self@.queue == q0,
                bi <= nb,
                r@.map_values(|s: String| s@) == drain_spec(q0.take(bi as int), now_ms),
            decreases nb - bi,
        {
            proof {
                assert(q0.take(bi + 1).drop_last() =~= q0.take(bi as int));
                assert(q0.take(bi + 1).last() == q0[bi as int]);
            }
            let batch = &self.queue[bi];
            let ghost bv = q0[bi as int];
            proof {
                assert(self.queue@[bi as int]@ == bv);
            }
            let nm = batch.messages.len();
            let mut mi: usize = 0;
            let ghost pre_r = r@.map_values(|s: String| s@);
            while mi < nm
                invariant
                    nm == batch.messages@.len(),
                    bv == batch@,
                    mi <= nm,
                    r@.map_values(|s: String| s@) == pre_r + drain_batch_spec(bv, now_ms).take(
                        mi as int,
                    ),
                decreases nm - mi,
            {
                let m = &batch.messages[mi];
                proof {
                    assert(bv.messages[mi as int] == batch.messages@[mi as int]@);
                }
                let payload = beacon_payload_exec(batch.service_id.as_str(), m, now_ms);
                let encoded = pct::pct_encode_bytes(payload.as_str().as_bytes());
                let ghost pre2 = r@.map_values(|s: String| s@);
                r.push(encoded);
                proof {
                    assert(encoded@ =~= beacon_query_value(bv.service_id, bv.messages[mi as int], now_ms));
                    assert(r@.map_values(|s: String| s@) =~= pre2.push(encoded@));
                    assert(pre_r + drain_batch_spec(bv, now_ms).take(mi + 1) =~= pre2.push(
                        beacon_query_value(bv.service_id, bv.messages[mi as int], now_ms),
                    ));
                }
                mi = mi + 1;
            }
            proof {
                assert(drain_batch_spec(bv, now_ms).take(nm as int) =~= drain_batch_spec(
                    bv,
                    now_ms,
                ));
            }
            bi = bi + 1;
        }
        proof {
            assert(q0.take(nb as int) =~= q0);
        }
        self.queue.clear();
        proof {
            assert(self.queue@.map_values(|b: CaptureBatch| b@) =~= Seq::<BatchView>::empty());
            assert(self@ =~= (AgentView { queue: Seq::empty(), ..old(self)@ }));
        }
        r
    }
}

// --- Laws of the page-side dedup set ---

proof fn lemma_keys_after_mono(seen: Seq<KeyView>, msgs: Seq<MsgView>, k: KeyView)
    requires
        has_kv(seen, k),
    ensures
        has_kv(keys_after(seen, msgs), k),
    decreases msgs.len(),
{
    if msgs.len() > 0 {
        let k0 = msg::key_spec(msgs[0]);
        if has_kv(seen, k0) {
            lemma_keys_after_mono(seen, msgs.drop_first(), k);
        } else {
            let i = choose|i: int| 0 <= i < seen.len() && seen[i] == k;
            assert(seen.push(k0)[i] == k);
            lemma_keys_after_mono(seen.push(k0), msgs.drop_first(), k);
        }
    }
}

proof fn lemma_keys_after_covers(seen: Seq<KeyView>, msgs: Seq<MsgView>, j: int)
    requires
        0 <= j < msgs.len(),
    ensures
        has_kv(keys_after(seen, msgs), msg::key_spec(msgs[j])),
    decreases msgs.len(),
{
    let k0 = msg::key_spec(msgs[0]);
    let s2 = if has_kv(seen, k0) {
        seen
    } else {
        seen.push(k0)
    };
    if j == 0 {
        if !has_kv(seen, k0) {
            assert(seen.push(k0)[seen.len() as int] == k0);
        }
        assert(has_kv(s2, k0));
        lemma_keys_after_mono(s2, msgs.drop_first(), k0);
    } else {
        assert(msgs.drop_first()[j - 1] == msgs[j]);
        lemma_keys_after_covers(s2, msgs.drop_first(), j - 1);
    }
}

proof fn lemma_fresh_msgs_none(seen: Seq<KeyView>, msgs: Seq<MsgView>)
    requires
        forall|j: int|
            0 <= j < msgs.len() ==> has_kv(seen, msg::key_spec(#[trigger] msgs[j])),
    ensures
        fresh_msgs(seen, msgs) == Seq::<MsgView>::empty(),
    decreases msgs.len(),
{
    if msgs.len() > 0 {
        assert(forall|j: int|
            0 <= j < msgs.drop_first().len() ==> msgs.drop_first()[j] == msgs[j + 1]);
        lemma_fresh_msgs_none(seen, msgs.drop_first());
    }
}

/// A dedup key is queued at most once per page lifetime: once a run of
/// messages has been taken, offering messages with the same keys again —
/// in any order, at any later point of the page's life — queues nothing.
pub proof fn lemma_enqueue_idempotent(
    seen: Seq<KeyView>,
    msgs: Seq<MsgView>,
    again: Seq<MsgView>,
)
    requires
        forall|j: int|
            0 <= j < again.len() ==> exists|i: int|
                0 <= i < msgs.len() && msg::key_spec(#[trigger] again[j]) == msg::key_spec(
                    msgs[i],
                ),
    ensures
        fresh_msgs(keys_after(seen, msgs), again) == Seq::<MsgView>::empty(),
{
    let s2 = keys_after(seen, msgs);
    assert forall|j: int| 0 <= j < again.len() implies has_kv(
        s2,
        msg::key_spec(#[trigger] again[j]),
    ) by {
        let i = choose|i: int|
            0 <= i < msgs.len() && msg::key_spec(again[j]) == msg::key_spec(msgs[i]);
        lemma_keys_after_covers(seen, msgs, i);
    }
    lemma_fresh_msgs_none(s2, again);
}

// --- Laws of the fallback pass ---

proof fn lemma_dom_keys_mono(seen: Seq<KeyView>, items: Seq<DomItemView>, now: i64, k: KeyView)
    requires
        has_kv(seen, k),
    ensures
        has_kv(dom_keys_after(seen, items, now), k),
    decreases items.len(),
{
    if items.len() > 0 {
        match dom_msg_of(items[0], now) {
            Some(m) => {
                let k0 = msg::key_spec(m);
                if has_kv(seen, k0) {
                    lemma_dom_keys_mono(seen, items.drop_first(), now, k);
                } else {
                    let i = choose|i: int| 0 <= i < seen.len() && seen[i] == k;
                    assert(seen.push(k0)[i] == k);
                    lemma_dom_keys_mono(seen.push(k0), items.drop_first(), now, k);
                }
            },
            None => {
                lemma_dom_keys_mono(seen, items.drop_first(), now, k);
            },
        }
    }
}

proof fn lemma_dom_keys_covers(seen: Seq<KeyView>, items: Seq<DomItemView>, now: i64, j: int)
    requires
        0 <= j < items.len(),
        dom_msg_of(items[j], now) is Some,
    ensures
        has_kv(dom_keys_after(seen, items, now), msg::key_spec(dom_msg_of(items[j], now).unwrap())),
    decreases items.len(),
{
    let s2 = match dom_msg_of(items[0], now) {
        Some(m) => {
            let k = msg::key_spec(m);
            if has_kv(seen, k) {
                seen
            } else {
                seen.push(k)
            }
        },
        None => seen,
    };
    if j == 0 {
        let k0 = msg::key_spec(dom_msg_of(items[0], now).unwrap());
        if !has_kv(seen, k0) {
            assert(seen.push(k0)[seen.len() as int] == k0);
        }
        assert(has_kv(s2, k0));
        lemma_dom_keys_mono(s2, items.drop_first(), now, k0);
    } else {
        assert(items.drop_first()[j - 1] == items[j]);
        lemma_dom_keys_covers(s2, items.drop_first(), now, j - 1);
    }
}

proof fn lemma_dom_fresh_none(seen: Seq<KeyView>, items: Seq<DomItemView>, now: i64)
    requires
        forall|j: int|
            0 <= j < items.len() && (#[trigger] dom_msg_of(items[j], now)) is Some ==> has_kv(
                seen,
                msg::key_spec(dom_msg_of(items[j], now).unwrap()),
            ),
    ensures
        dom_fresh(seen, items, now) == Seq::<MsgView>::empty(),
    decreases items.len(),
{
    if items.len() > 0 {
        assert(forall|j: int|
            0 <= j < items.drop_first().len() ==> items.drop_first()[j] == items[j + 1]);
        lemma_dom_fresh_none(seen, items.drop_first(), now);
    }
}

/// The dedup key one scraped turn gets does not depend on when the pass
/// runs: it hashes the trimmed text alone.
proof fn lemma_dom_key_time_free(it: DomItemView, n1: i64, n2: i64)
    ensures
        dom_msg_of(it, n1) is Some <==> dom_msg_of(it, n2) is Some,
        dom_msg_of(it, n1) is Some ==> msg::key_spec(dom_msg_of(it, n1).unwrap())
            == msg::key_spec(dom_msg_of(it, n2).unwrap()),
{
}

/// Fallback outputs meet the data model: non-empty trimmed text.
pub proof fn lemma_dom_fresh_wf(seen: Seq<KeyView>, items: Seq<DomItemView>, now: i64)
    ensures
        forall|i: int|
            0 <= i < dom_fresh(seen, items, now).len() ==> crate::msg::msg_wf(
                #[trigger] dom_fresh(seen, items, now)[i],
            ),
    decreases items.len(),
{
    if items.len() > 0 {
        text::lemma_trim_idempotent(items[0].content);
        match dom_msg_of(items[0], now) {
            Some(m) => {
                let k = msg::key_spec(m);
                if has_kv(seen, k) {
                    lemma_dom_fresh_wf(seen, items.drop_first(), now);
                    assert forall|i: int| 0 <= i < dom_fresh(seen, items, now).len() implies
                        crate::msg::msg_wf(#[trigger] dom_fresh(seen, items, now)[i]) by {
                        assert(dom_fresh(seen, items, now)[i] == dom_fresh(
                            seen,
                            items.drop_first(),
                            now,
                        )[i]);
                    }
                } else {
                    lemma_dom_fresh_wf(seen.push(k), items.drop_first(), now);
                    let rest = dom_fresh(seen.push(k), items.drop_first(), now);
                    assert forall|i: int| 0 <= i < dom_fresh(seen, items, now).len() implies
                        crate::msg::msg_wf(#[trigger] dom_fresh(seen, items, now)[i]) by {
                        if i == 0 {
                            assert(dom_fresh(seen, items, now)[0] == m);
                        } else {
                            assert(dom_fresh(seen, items, now)[i] == rest[i - 1]);
                        }
                    }
                }
            },
            None => {
                lemma_dom_fresh_wf(seen, items.drop_first(), now);
                assert forall|i: int| 0 <= i < dom_fresh(seen, items, now).len() implies
                    crate::msg::msg_wf(#[trigger] dom_fresh(seen, items, now)[i]) by {
                    assert(dom_fresh(seen, items, now)[i] == dom_fresh(
                        seen,
                        items.drop_first(),
                        now,
                    )[i]);
                }
            },
        }
    }
}

/// Fallback hash dedup: one pass marks the content hash of every turn it
/// captures, so a second pass over an unchanged set of turns — at any
/// later instant — captures nothing.
pub proof fn lemma_dom_pass_idempotent(
    seen: Seq<KeyView>,
    items: Seq<DomItemView>,
    now: i64,
    now2: i64,
)
    ensures
        dom_fresh(dom_keys_after(seen, items, now), items, now2) == Seq::<MsgView>::empty(),
{
    let s2 = dom_keys_after(seen, items, now);
    assert forall|j: int|
        0 <= j < items.len() && (#[trigger] dom_msg_of(items[j], now2)) is Some implies has_kv(
        s2,
        msg::key_spec(dom_msg_of(items[j], now2).unwrap()),
    ) by {
        lemma_dom_key_time_free(items[j], now, now2);
        lemma_dom_keys_covers(seen, items, now, j);
    }
    lemma_dom_fresh_none(s2, items, now2);
}

/// Write the beacon payload of one message.
fn beacon_payload_exec(service: &str, m: &CapturedMessage, now_ms: i64) -> (r: String)
    ensures
        r@ == beacon_payload_chars(service@, m@, now_ms),
{
    let mut out: Vec<char> = Vec::new();
    text::append_str(&mut out, "{\"s\":");
    jsonl::push_quoted(&mut out, service);
    text::append_str(&mut out, ",\"r\":");
    jsonl::push_quoted(&mut out, m.role.name());
    text::append_str(&mut out, ",\"c\":");
    let cv = text::to_chars(m.content.as_str());
    if cv.len() <= 1500 {
        jsonl::push_quoted(&mut out, m.content.as_str());
    } else {
        let mut cut: Vec<char> = Vec::new();
        let mut i: usize = 0;
        while i < 1500
            invariant
                cv@.len() > 1500,
                cv@ == m.content@,
                i <= 1500,
                cut@ == cv@.take(i as int),
            decreases 1500 - i,
        {
            cut.push(cv[i]);
            assert(cv@.take(i + 1) =~= cv@.take(i as int).push(cv@[i as int]));
            i = i + 1;
        }
        let cut_s = text::chars_to_string(&cut);
        jsonl::push_quoted(&mut out, cut_s.as_str());
    }
    text::append_str(&mut out, ",\"t\":");
    let t: u64 = if now_ms < 0 {
        0
    } else {
        now_ms as u64
    };
    text::push_dec(&mut out, t);
    text::append_str(&mut out, "}");
    proof {
        assert(out@ =~= beacon_payload_chars(service@, m@, now_ms));
    }
    text::chars_to_string(&out)
}

} // verus!
