//! The normalized message record and its dedup key.

use vstd::prelude::*;
use crate::text;

verus! {

/// Who said it.
#[derive(Clone, Copy, PartialEq, Eq, Structural, Debug)]
pub enum Role {
    User,
    Assistant,
    Unknown,
}

/// Which decoder or transport produced a record. Used for trust ranking
/// during merge, never for filtering.
#[derive(Clone, Copy, PartialEq, Eq, Structural, Debug)]
pub enum Source {
    Api,
    History,
    Dom,
    Beacon,
    Protocol,
    Http,
}

/// The wire name of a role.
pub open spec fn role_name_spec(r: Role) -> Seq<char> {
    match r {
        Role::User => "user"@,
        Role::Assistant => "assistant"@,
        Role::Unknown => "unknown"@,
    }
}

/// The wire name of a source.
pub open spec fn source_name_spec(s: Source) -> Seq<char> {
    match s {
        Source::Api => "api"@,
        Source::History => "history"@,
        Source::Dom => "dom"@,
        Source::Beacon => "beacon"@,
        Source::Protocol => "protocol"@,
        Source::Http => "http"@,
    }
}

/// The role a wire text names; anything unrecognized reads as `Unknown`.
pub open spec fn role_of_name(s: Seq<char>) -> Role {
    if s == "user"@ {
        Role::User
    } else if s == "assistant"@ {
        Role::Assistant
    } else {
        Role::Unknown
    }
}

/// The source a wire text names, when it names one.
pub open spec fn source_of_name(s: Seq<char>) -> Option<Source> {
    if s == "api"@ {
        Some(Source::Api)
    } else if s == "history"@ {
        Some(Source::History)
    } else if s == "dom"@ {
        Some(Source::Dom)
    } else if s == "beacon"@ {
        Some(Source::Beacon)
    } else if s == "protocol"@ {
        Some(Source::Protocol)
    } else if s == "http"@ {
        Some(Source::Http)
    } else {
        None
    }
}

impl Role {
    /// The wire name of this role.
    pub fn name(&self) -> (r: &'static str)
        ensures
            r@ == role_name_spec(*self),
    {
        match self {
            Role::User => "user",
            Role::Assistant => "assistant",
            Role::Unknown => "unknown",
        }
    }

    /// Read a role from its wire name.
    pub fn of_name(s: &str) -> (r: Role)
        ensures
            r == role_of_name(s@),
    {
        if text::str_eq(s, "user") {
            Role::User
        } else if text::str_eq(s, "assistant") {
            Role::Assistant
        } else {
            Role::Unknown
        }
    }
}

impl Source {
    /// The wire name of this source.
    pub fn name(&self) -> (r: &'static str)
        ensures
            r@ == source_name_spec(*self),
    {
        match self {
            Source::Api => "api",
            Source::History => "history",
            Source::Dom => "dom",
            Source::Beacon => "beacon",
            Source::Protocol => "protocol",
            Source::Http => "http",
        }
    }

    /// Read a source from its wire name.
    pub fn of_name(s: &str) -> (r: Option<Source>)
        ensures
            r == source_of_name(s@),
    {
        if text::str_eq(s, "api") {
            Some(Source::Api)
        } else if text::str_eq(s, "history") {
            Some(Source::History)
        } else if text::str_eq(s, "dom") {
            Some(Source::Dom)
        } else if text::str_eq(s, "beacon") {
            Some(Source::Beacon)
        } else if text::str_eq(s, "protocol") {
            Some(Source::Protocol)
        } else if text::str_eq(s, "http") {
            Some(Source::Http)
        } else {
            None
        }
    }
}

/// One normalized conversational message.
pub struct CapturedMessage {
    pub role: Role,
    /// Trimmed text; the adapters only produce it non-empty.
    pub content: String,
    /// Vendor-assigned message identifier, when the wire carried one.
    pub external_id: Option<String>,
    /// Vendor conversation identifier, when the wire carried one.
    pub conversation_id: Option<String>,
    pub source: Source,
    /// Producer-side capture instant, in milliseconds.
    pub timestamp: i64,
}

/// The mathematical shape of a message.
pub struct MsgView {
    pub role: Role,
    pub content: Seq<char>,
    pub external_id: Option<Seq<char>>,
    pub conversation_id: Option<Seq<char>>,
    pub source: Source,
    pub timestamp: i64,
}

impl View for CapturedMessage {
    type V = MsgView;

    open spec fn view(&self) -> MsgView {
        MsgView {
            role: self.role,
            content: self.content@,
            external_id: match self.external_id {
                Some(s) => Some(s@),
                None => None,
            },
            conversation_id: match self.conversation_id {
                Some(s) => Some(s@),
                None => None,
            },
            source: self.source,
            timestamp: self.timestamp,
        }
    }
}

/// The view of a message list.
pub open spec fn msgs_view(v: Seq<CapturedMessage>) -> Seq<MsgView> {
    v.map_values(|m: CapturedMessage| m@)
}

/// A well-formed message holds non-empty trimmed content.
pub open spec fn msg_wf(m: MsgView) -> bool {
    &&& m.content == text::trim_spec(m.content)
    &&& m.content.len() > 0
}

impl CapturedMessage {
    /// An identical copy.
    pub fn dup(&self) -> (r: CapturedMessage)
        ensures
            r@ == self@,
    {
        CapturedMessage {
            role: self.role,
            content: self.content.clone(),
            external_id: match &self.external_id {
                Some(s) => Some(s.clone()),
                None => None,
            },
            conversation_id: match &self.conversation_id {
                Some(s) => Some(s.clone()),
                None => None,
            },
            source: self.source,
            timestamp: self.timestamp,
        }
    }
}

/// The dedup key of a message, as a mathematical value.
pub enum KeyView {
    Ext(Seq<char>),
    Hash(u32),
}

/// The dedup key of a message: the vendor identifier when one is present,
/// else the rolling hash of the content.
pub open spec fn key_spec(m: MsgView) -> KeyView {
    match m.external_id {
        Some(id) => KeyView::Ext(id),
        None => KeyView::Hash(text::content_hash_spec(m.content)),
    }
}

/// The dedup key of a message.
pub enum MsgKey {
    Ext(String),
    Hash(u32),
}

impl View for MsgKey {
    type V = KeyView;

    open spec fn view(&self) -> KeyView {
        match self {
            MsgKey::Ext(s) => KeyView::Ext(s@),
            MsgKey::Hash(h) => KeyView::Hash(*h),
        }
    }
}

/// Compute the dedup key of a message.
pub fn msg_key(m: &CapturedMessage) -> (k: MsgKey)
    ensures
        k@ == key_spec(m@),
{
    match &m.external_id {
        Some(id) => MsgKey::Ext(id.clone()),
        None => MsgKey::Hash(text::content_hash(m.content.as_str())),
    }
}

/// Whether two keys name the same message.
pub fn key_eq(a: &MsgKey, b: &MsgKey) -> (r: bool)
    ensures
        r == (a@ == b@),
{
    match a {
        MsgKey::Ext(x) => match b {
            MsgKey::Ext(y) => *x == *y,
            MsgKey::Hash(_) => false,
        },
        MsgKey::Hash(x) => match b {
            MsgKey::Ext(_) => false,
            MsgKey::Hash(y) => *x == *y,
        },
    }
}

/// One bundle of messages moved together across a delivery channel.
pub struct CaptureBatch {
    /// The hostname the page agent runs under.
    pub service_id: String,
    /// The page address at capture time, when known.
    pub url: Option<String>,
    /// Order within a batch is preserved end to end.
    pub messages: Vec<CapturedMessage>,
}

/// The mathematical shape of a batch.
pub struct BatchView {
    pub service_id: Seq<char>,
    pub url: Option<Seq<char>>,
    pub messages: Seq<MsgView>,
}

impl View for CaptureBatch {
    type V = BatchView;

    open spec fn view(&self) -> BatchView {
        BatchView {
            service_id: self.service_id@,
            url: match self.url {
                Some(u) => Some(u@),
                None => None,
            },
            messages: self.messages@.map_values(|m: CapturedMessage| m@),
        }
    }
}

} // verus!
