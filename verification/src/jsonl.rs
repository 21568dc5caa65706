//! The persisted record line.
//!
//! The collector appends one JSON object per message to the durable log:
//! `captured_at`, `content`, `external_id` (when the wire carried one),
//! `role`, `service_id`, `source` and `url` (when known), with every text
//! escaped as a JSON string literal.

use vstd::prelude::*;
use crate::msg::CapturedMessage;
use crate::msg::MsgView;
use crate::msg;
use crate::text;

verus! {

/// A JSON string literal holding the text `s`.
pub open spec fn quoted(s: Seq<char>) -> Seq<char> {
    seq!['"'] + text::escape_spec(s) + seq!['"']
}

/// The log line of one message: a JSON object with its fields in fixed
/// (alphabetical) order, `external_id` and `url` present only when known.
pub open spec fn log_line_spec(
    service: Seq<char>,
    url: Option<Seq<char>>,
    m: MsgView,
    ts: Seq<char>,
) -> Seq<char> {
    "{\"captured_at\":"@ + quoted(ts) + ",\"content\":"@ + quoted(m.content) + (match m.external_id {
        Some(id) => ",\"external_id\":"@ + quoted(id),
        None => Seq::<char>::empty(),
    }) + ",\"role\":"@ + quoted(msg::role_name_spec(m.role)) + ",\"service_id\":"@ + quoted(
        service,
    ) + ",\"source\":"@ + quoted(msg::source_name_spec(m.source)) + (match url {
        Some(u) => ",\"url\":"@ + quoted(u),
        None => Seq::<char>::empty(),
    }) + "}"@
}

/// Append `s` as a JSON string literal.
pub fn push_quoted(out: &mut Vec<char>, s: &str)
    ensures
        final(out)@ == old(out)@ + quoted(s@),
{
    out.push('"');
    text::append_escaped(out, s);
    out.push('"');
    assert(final(out)@ =~= old(out)@ + quoted(s@));
}

/// Write the log line of one message.
pub fn log_line(service: &str, url: Option<&String>, m: &CapturedMessage, ts: &str) -> (r: String)
    ensures
        r@ == log_line_spec(
            service@,
            match url {
                Some(u) => Some(u@),
                None => None,
            },
            m@,
            ts@,
        ),
{
    let mut out: Vec<char> = Vec::new();
    text::append_str(&mut out, "{\"captured_at\":");
    push_quoted(&mut out, ts);
    text::append_str(&mut out, ",\"content\":");
    push_quoted(&mut out, m.content.as_str());
    match &m.external_id {
        Some(id) => {
            text::append_str(&mut out, ",\"external_id\":");
            push_quoted(&mut out, id.as_str());
        },
        None => {},
    }
    text::append_str(&mut out, ",\"role\":");
    push_quoted(&mut out, m.role.name());
    text::append_str(&mut out, ",\"service_id\":");
    push_quoted(&mut out, service);
    text::append_str(&mut out, ",\"source\":");
    push_quoted(&mut out, m.source.name());
    match url {
        Some(u) => {
            text::append_str(&mut out, ",\"url\":");
            push_quoted(&mut out, u.as_str());
        },
        None => {},
    }
    text::append_str(&mut out, "}");
    proof {
        assert(out@ =~= log_line_spec(
            service@,
            match url {
                Some(u) => Some(u@),
                None => None,
            },
            m@,
            ts@,
        ));
    }
    text::chars_to_string(&out)
}

/// A character the clock writes, safe inside a JSON string as it stands.
pub open spec fn is_ts_char(c: char) -> bool {
    ('0' <= c && c <= '9') || c == '-' || c == ':' || c == 'T' || c == '.' || c == '+' || c == 'Z'
}

/// The shape every clock text has: at least nineteen characters, all from
/// the timestamp alphabet — so it stands inside a JSON string unescaped.
pub open spec fn clock_shaped(ts: Seq<char>) -> bool {
    ts.len() >= 19 && forall|i: int| 0 <= i < ts.len() ==> is_ts_char(#[trigger] ts[i])
}

/// Relies on `chrono::Utc::now().to_rfc3339()`: an RFC 3339 timestamp of
/// the present instant, at least nineteen characters, written with digits,
/// `-`, `:`, `T`, `.`, `+` and `Z` alone.
#[verifier::external_body]
pub fn now_rfc3339() -> (r: String)
    ensures
        clock_shaped(r@),
{
    chrono::Utc::now().to_rfc3339()
}

} // verus!
