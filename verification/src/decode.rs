//! Stateless stream decoders: they turn the raw bytes of one response body
//! into the sequence of logical events the wire carried.
//!
//! Event-stream framing splits on line boundaries, accumulates a buffer
//! across chunk boundaries (a line may span two chunks), and reads lines
//! prefixed `data: `; a payload of `[DONE]` is the terminal event, any other
//! payload is read as JSON, and a payload that is not JSON is silently
//! skipped. JSON framing reads the whole body as one document.

use vstd::prelude::*;
use crate::json;
use crate::json::Json;

verus! {

/// One logical event of a decoded response body.
pub enum DecodedEvent {
    /// The wire said the stream is complete.
    Done,
    /// One data payload, already parsed.
    Data(Json),
}

/// The body could not be read in the requested framing.
#[derive(Clone, Copy, PartialEq, Eq, Structural, Debug)]
pub struct DecodeError;

/// ASCII whitespace, on bytes.
pub open spec fn is_ws_b(b: u8) -> bool {
    b == 32 || b == 9 || b == 10 || b == 13
}

pub open spec fn trim_front_b(s: Seq<u8>) -> Seq<u8>
    decreases s.len(),
{
    if s.len() > 0 && is_ws_b(s[0]) {
        trim_front_b(s.drop_first())
    } else {
        s
    }
}

pub open spec fn trim_back_b(s: Seq<u8>) -> Seq<u8>
    decreases s.len(),
{
    if s.len() > 0 && is_ws_b(s.last()) {
        trim_back_b(s.drop_last())
    } else {
        s
    }
}

/// ASCII whitespace removed from both ends of a byte sequence.
pub open spec fn trim_b(s: Seq<u8>) -> Seq<u8> {
    trim_back_b(trim_front_b(s))
}

/// The index of the first line feed, or `-1` when there is none.
pub open spec fn find_nl(s: Seq<u8>) -> int
    decreases s.len(),
{
    if s.len() == 0 {
        -1
    } else if s[0] == 10 {
        0
    } else {
        let r = find_nl(s.drop_first());
        if r < 0 {
            -1
        } else {
            1 + r
        }
    }
}

/// The byte text of the `data: ` line prefix.
pub open spec fn data_prefix() -> Seq<u8> {
    seq![100u8, 97u8, 116u8, 97u8, 58u8, 32u8]
}

/// The byte text of the `[DONE]` terminal payload.
pub open spec fn done_payload() -> Seq<u8> {
    seq![91u8, 68u8, 79u8, 78u8, 69u8, 93u8]
}

/// The events one complete line contributes: none unless it bears the
/// `data: ` prefix; the terminal event on `[DONE]`; the parsed payload when
/// it is valid JSON; nothing otherwise.
pub open spec fn line_events(line: Seq<u8>) -> Seq<DecodedEvent> {
    if line.len() >= 6 && line.take(6) == data_prefix() {
        let payload = trim_b(line.skip(6));
        if payload == done_payload() {
            seq![DecodedEvent::Done]
        } else {
            match json::json_doc(payload) {
                Some(j) => seq![DecodedEvent::Data(j)],
                None => Seq::empty(),
            }
        }
    } else {
        Seq::empty()
    }
}

/// The events of an event-stream body: one complete line at a time; bytes
/// after the last line feed never produce an event.
pub open spec fn sse_events(input: Seq<u8>) -> Seq<DecodedEvent>
    decreases input.len(),
{
    let k = find_nl(input);
    if 0 <= k && k < input.len() {
        line_events(input.take(k)) + sse_events(input.skip(k + 1))
    } else {
        Seq::empty()
    }
}

/// The concatenation of the raw chunks of a body.
pub open spec fn concat_chunks(chunks: Seq<Seq<u8>>) -> Seq<u8>
    decreases chunks.len(),
{
    if chunks.len() == 0 {
        Seq::empty()
    } else {
        chunks[0] + concat_chunks(chunks.drop_first())
    }
}

proof fn lemma_find_nl_is(s: Seq<u8>, k: int)
    requires
        0 <= k <= s.len(),
        forall|j: int| 0 <= j < k ==> s[j] != 10,
        k < s.len() ==> s[k] == 10,
    ensures
        find_nl(s) == if k < s.len() {
            k
        } else {
            -1
        },
    decreases k,
{
    if k == 0 {
        if s.len() == 0 {
        } else if s[0] == 10 {
        } else {
            lemma_find_nl_none(s);
        }
    } else {
        lemma_find_nl_is(s.drop_first(), k - 1);
    }
}

proof fn lemma_find_nl_none(s: Seq<u8>)
    requires
        forall|j: int| 0 <= j < s.len() ==> s[j] != 10,
    ensures
        find_nl(s) == -1,
    decreases s.len(),
{
    if s.len() > 0 {
        lemma_find_nl_none(s.drop_first());
    }
}

proof fn lemma_find_nl_concat(a: Seq<u8>, b: Seq<u8>)
    requires
        find_nl(a) >= 0,
    ensures
        find_nl(a + b) == find_nl(a),
    decreases a.len(),
{
    if a.len() == 0 {
    } else if a[0] == 10 {
        assert((a + b)[0] == 10);
    } else {
        lemma_find_nl_concat(a.drop_first(), b);
        assert((a + b).drop_first() =~= a.drop_first() + b);
        assert((a + b)[0] == a[0]);
    }
}

proof fn lemma_concat_chunks_step(chunks: Seq<Seq<u8>>, i: int)
    requires
        0 <= i < chunks.len(),
    ensures
        concat_chunks(chunks.skip(i)) == chunks[i] + concat_chunks(chunks.skip(i + 1)),
{
    let s = chunks.skip(i);
    assert(s.len() > 0);
    assert(s[0] == chunks[i]);
    assert(s.drop_first() =~= chunks.skip(i + 1));
}

/// Find the first line feed in `buf`.
fn find_nl_exec(buf: &Vec<u8>) -> (r: Option<usize>)
    ensures
        match r {
            Some(k) => find_nl(buf@) == k as int,
            None => find_nl(buf@) == -1,
        },
{
    let n = buf.len();
    let mut i: usize = 0;
    while i < n
        invariant
            n == buf@.len(),
            i <= n,
            forall|j: int| 0 <= j < i ==> buf@[j] != 10,
        decreases n - i,
    {
        if buf[i] == 10 {
            proof {
                lemma_find_nl_is(buf@, i as int);
            }
            return Some(i);
        }
        i = i + 1;
    }
    proof {
        lemma_find_nl_is(buf@, n as int);
    }
    None
}

/// Trim ASCII whitespace from both ends of a byte slice range.
fn trim_bytes(v: &Vec<u8>, from: usize, to: usize) -> (r: Vec<u8>)
    requires
        from <= to <= v@.len(),
    ensures
        r@ == trim_b(v@.subrange(from as int, to as int)),
{
    let ghost s = v@.subrange(from as int, to as int);
    let mut a: usize = from;
    while a < to && is_ws_b_exec(v[a])
        invariant
            from <= a <= to <= v@.len(),
            s == v@.subrange(from as int, to as int),
            forall|j: int| 0 <= j < a - from ==> is_ws_b(s[j]),
        decreases to - a,
    {
        a = a + 1;
    }
    proof {
        lemma_trim_front_b_skip(s, a - from);
    }
    let mut b: usize = to;
    while b > a && is_ws_b_exec(v[b - 1])
        invariant
            from <= a <= b <= to <= v@.len(),
            s == v@.subrange(from as int, to as int),
            forall|j: int| b - from <= j < s.len() ==> is_ws_b(s[j]),
        decreases b,
    {
        b = b - 1;
    }
    let ghost fr = s.skip(a - from);
    proof {
        lemma_trim_back_b_take(fr, b - a);
    }
    let mut r: Vec<u8> = Vec::new();
    let mut i: usize = a;
    while i < b
        invariant
            a <= i <= b <= v@.len(),
            r@ == v@.subrange(a as int, i as int),
        decreases b - i,
    {
        r.push(v[i]);
        assert(v@.subrange(a as int, i + 1) =~= v@.subrange(a as int, i as int).push(
            v@[i as int],
        ));
        i = i + 1;
    }
    assert(r@ =~= fr.take(b - a));
    r
}

/// Executable form of `is_ws_b`.
fn is_ws_b_exec(b: u8) -> (r: bool)
    ensures
        r == is_ws_b(b),
{
    b == 32 || b == 9 || b == 10 || b == 13
}

proof fn lemma_trim_front_b_skip(s: Seq<u8>, i: int)
    requires
        0 <= i <= s.len(),
        forall|j: int| 0 <= j < i ==> is_ws_b(s[j]),
        i < s.len() ==> !is_ws_b(s[i]),
    ensures
        trim_front_b(s) == s.skip(i),
    decreases i,
{
    if i == 0 {
        assert(s.skip(0) =~= s);
    } else {
        lemma_trim_front_b_skip(s.drop_first(), i - 1);
        assert(s.drop_first().skip(i - 1) =~= s.skip(i));
    }
}

proof fn lemma_trim_back_b_take(s: Seq<u8>, i: int)
    requires
        0 <= i <= s.len(),
        forall|j: int| i <= j < s.len() ==> is_ws_b(s[j]),
        i > 0 ==> !is_ws_b(s[i - 1]),
    ensures
        trim_back_b(s) == s.take(i),
    decreases s.len() - i,
{
    if i == s.len() {
        assert(s.take(s.len() as int) =~= s);
    } else {
        assert(is_ws_b(s.last()));
        lemma_trim_back_b_take(s.drop_last(), i);
        assert(s.drop_last().take(i) =~= s.take(i));
    }
}

/// The events one complete line contributes.
fn line_events_exec(buf: &Vec<u8>, to: usize) -> (r: Vec<DecodedEvent>)
    requires
        to <= buf@.len(),
    ensures
        r@ == line_events(buf@.take(to as int)),
{
    let ghost line = buf@.take(to as int);
    let mut r: Vec<DecodedEvent> = Vec::new();
    if to >= 6 && buf[0] == 100 && buf[1] == 97 && buf[2] == 116 && buf[3] == 97 && buf[4] == 58
        && buf[5] == 32 {
        assert(line.take(6) =~= data_prefix());
        let payload = trim_bytes(buf, 6, to);
        assert(buf@.subrange(6, to as int) =~= line.skip(6));
        let is_done = payload.len() == 6 && payload[0] == 91 && payload[1] == 68 && payload[2]
            == 79 && payload[3] == 78 && payload[4] == 69 && payload[5] == 93;
        if is_done {
            assert(payload@ =~= done_payload());
            r.push(DecodedEvent::Done);
        } else {
            assert(payload@ != done_payload());
            match json::parse_json(payload.as_slice()) {
                Some(j) => {
                    r.push(DecodedEvent::Data(j));
                },
                None => {},
            }
        }
    } else {
        assert(line.len() >= 6 ==> line.take(6) != data_prefix()) by {
            if line.len() >= 6 && line.take(6) == data_prefix() {
                assert(line.take(6)[0] == 100 && line.take(6)[1] == 97 && line.take(6)[2] == 116
                    && line.take(6)[3] == 97 && line.take(6)[4] == 58 && line.take(6)[5] == 32);
            }
        }
    }
    assert(r@ =~= line_events(line));
    r
}

proof fn lemma_find_nl_range(s: Seq<u8>)
    ensures
        find_nl(s) < s.len(),
    decreases s.len(),
{
    if s.len() > 0 && s[0] != 10 {
        lemma_find_nl_range(s.drop_first());
    }
}

/// Decode an event-stream body delivered as raw chunks. A line may span
/// chunk boundaries; bytes after the final line feed are dropped when the
/// stream ends.
pub fn decode_event_stream(chunks: &Vec<Vec<u8>>) -> (events: Vec<DecodedEvent>)
    ensures
        events@ == sse_events(concat_chunks(chunks.deep_view())),
{
    let ghost full = concat_chunks(chunks.deep_view());
    let mut events: Vec<DecodedEvent> = Vec::new();
    let mut buf: Vec<u8> = Vec::new();
    let n = chunks.len();
    let mut ci: usize = 0;
    assert(chunks.deep_view().skip(0) =~= chunks.deep_view());
    while ci < n
        invariant
            n == chunks@.len(),
            chunks.deep_view().len() == n,
            ci <= n,
            events@ + sse_events(buf@ + concat_chunks(chunks.deep_view().skip(ci as int)))
                =~= sse_events(full),
            find_nl(buf@) == -1,
        decreases n - ci,
    {
        let chunk = &chunks[ci];
        let ghost pre_buf = buf@;
        buf.extend_from_slice(chunk.as_slice());
        let ghost rest = concat_chunks(chunks.deep_view().skip(ci + 1));
        proof {
            lemma_concat_chunks_step(chunks.deep_view(), ci as int);
            assert(chunks.deep_view()[ci as int] == chunks@[ci as int]@);
            assert(buf@ =~= pre_buf + chunks@[ci as int]@);
            assert(buf@ + rest =~= pre_buf + concat_chunks(chunks.deep_view().skip(ci as int)));
            assert(events@ + sse_events(buf@ + rest) =~= sse_events(full));
        }
        loop
            invariant
                events@ + sse_events(buf@ + rest) =~= sse_events(full),
                rest == concat_chunks(chunks.deep_view().skip(ci + 1)),
            ensures
                events@ + sse_events(buf@ + rest) =~= sse_events(full),
                find_nl(buf@) == -1,
            decreases buf@.len(),
        {
            match find_nl_exec(&buf) {
                Some(k) => {
                    proof {
                        lemma_find_nl_range(buf@);
                        lemma_find_nl_concat(buf@, rest);
                        let x = buf@ + rest;
                        assert(find_nl(x) == k as int);
                        assert(x.take(k as int) =~= buf@.take(k as int));
                        assert(x.skip(k + 1) =~= buf@.skip(k + 1) + rest);
                        assert(sse_events(x) == line_events(buf@.take(k as int)) + sse_events(
                            buf@.skip(k + 1) + rest,
                        ));
                    }
                    let ghost pre_events = events@;
                    let ghost pre_buf = buf@;
                    let mut line = line_events_exec(&buf, k);
                    events.append(&mut line);
                    let tail = split_tail(&buf, k + 1);
                    buf = tail;
                    proof {
                        assert((pre_events + line_events(pre_buf.take(k as int))) + sse_events(
                            buf@ + rest,
                        ) =~= pre_events + (line_events(pre_buf.take(k as int)) + sse_events(
                            buf@ + rest,
                        )));
                    }
                },
                None => {
                    break ;
                },
            }
        }
        ci = ci + 1;
    }
    proof {
        assert(chunks.deep_view().skip(n as int) =~= Seq::<Seq<u8>>::empty());
        assert(concat_chunks(Seq::<Seq<u8>>::empty()) =~= Seq::<u8>::empty());
        assert(buf@ + Seq::<u8>::empty() =~= buf@);
        assert(sse_events(buf@) =~= Seq::<DecodedEvent>::empty());
        assert(events@ + Seq::<DecodedEvent>::empty() =~= events@);
    }
    events
}

/// The bytes of `v` from `from` on, as a fresh vector.
fn split_tail(v: &Vec<u8>, from: usize) -> (r: Vec<u8>)
    requires
        from <= v@.len(),
    ensures
        r@ == v@.skip(from as int),
{
    let n = v.len();
    let mut r: Vec<u8> = Vec::new();
    let mut i: usize = from;
    while i < n
        invariant
            n == v@.len(),
            from <= i <= n,
            r@ == v@.subrange(from as int, i as int),
        decreases n - i,
    {
        r.push(v[i]);
        assert(v@.subrange(from as int, i + 1) =~= v@.subrange(from as int, i as int).push(
            v@[i as int],
        ));
        i = i + 1;
    }
    assert(r@ =~= v@.skip(from as int));
    r
}

/// Decode a whole body as one JSON document: one data event, or a decode
/// error when the body is not valid JSON.
pub fn decode_json(chunks: &Vec<Vec<u8>>) -> (r: Result<DecodedEvent, DecodeError>)
    ensures
        match r {
            Ok(e) => match e {
                DecodedEvent::Data(j) => json::json_doc(concat_chunks(chunks.deep_view()))
                    == Some(j),
                DecodedEvent::Done => false,
            },
            Err(_) => json::json_doc(concat_chunks(chunks.deep_view())) is None,
        },
{
    let body = concat_exec(chunks);
    match json::parse_json(body.as_slice()) {
        Some(j) => Ok(DecodedEvent::Data(j)),
        None => Err(DecodeError),
    }
}

/// Concatenate raw chunks into one buffer.
pub fn concat_exec(chunks: &Vec<Vec<u8>>) -> (r: Vec<u8>)
    ensures
        r@ == concat_chunks(chunks.deep_view()),
{
    let mut r: Vec<u8> = Vec::new();
    let n = chunks.len();
    let mut i: usize = 0;
    assert(chunks.deep_view().skip(0) =~= chunks.deep_view());
    while i < n
        invariant
            n == chunks@.len(),
            chunks.deep_view().len() == n,
            i <= n,
            r@ + concat_chunks(chunks.deep_view().skip(i as int)) =~= concat_chunks(
                chunks.deep_view(),
            ),
        decreases n - i,
    {
        proof {
            lemma_concat_chunks_step(chunks.deep_view(), i as int);
            assert(chunks.deep_view()[i as int] == chunks@[i as int]@);
            assert((r@ + chunks@[i as int]@) + concat_chunks(chunks.deep_view().skip(i + 1))
                =~= r@ + (chunks@[i as int]@ + concat_chunks(chunks.deep_view().skip(i + 1))));
        }
        let chunk = &chunks[i];
        r.extend_from_slice(chunk.as_slice());
        i = i + 1;
    }
    proof {
        assert(chunks.deep_view().skip(n as int) =~= Seq::<Seq<u8>>::empty());
        assert(r@ + Seq::<u8>::empty() =~= r@);
    }
    r
}

} // verus!
