//! Character-level text utilities shared by the decoders, adapters and the
//! collector: ASCII whitespace trimming, substring search, JSON string
//! escaping, and decimal timestamp parsing.

use vstd::prelude::*;

verus! {

/// ASCII whitespace, the class trimmed from captured message content.
pub open spec fn is_ws(c: char) -> bool {
    c == ' ' || c == '\t' || c == '\n' || c == '\r'
}

pub open spec fn trim_front(s: Seq<char>) -> Seq<char>
    decreases s.len(),
{
    if s.len() > 0 && is_ws(s[0]) {
        trim_front(s.drop_first())
    } else {
        s
    }
}

pub open spec fn trim_back(s: Seq<char>) -> Seq<char>
    decreases s.len(),
{
    if s.len() > 0 && is_ws(s.last()) {
        trim_back(s.drop_last())
    } else {
        s
    }
}

/// The trimmed form of a text: ASCII whitespace removed from both ends.
pub open spec fn trim_spec(s: Seq<char>) -> Seq<char> {
    trim_back(trim_front(s))
}

proof fn lemma_trim_front_skip(s: Seq<char>, i: int)
    requires
        0 <= i <= s.len(),
        forall|j: int| 0 <= j < i ==> is_ws(s[j]),
        i < s.len() ==> !is_ws(s[i]),
    ensures
        trim_front(s) == s.skip(i),
    decreases i,
{
    if i == 0 {
        if s.len() > 0 && is_ws(s[0]) {
            assert(false);
        }
        assert(s.skip(0) =~= s);
    } else {
        assert(is_ws(s[0]));
        lemma_trim_front_skip(s.drop_first(), i - 1);
        assert(s.drop_first().skip(i - 1) =~= s.skip(i));
    }
}

proof fn lemma_trim_back_take(s: Seq<char>, i: int)
    requires
        0 <= i <= s.len(),
        forall|j: int| i <= j < s.len() ==> is_ws(s[j]),
        i > 0 ==> !is_ws(s[i - 1]),
    ensures
        trim_back(s) == s.take(i),
    decreases s.len() - i,
{
    if i == s.len() {
        lemma_trim_back_all_ws(s);
    } else {
        assert(is_ws(s.last()));
        lemma_trim_back_take(s.drop_last(), i);
        assert(s.drop_last().take(i) =~= s.take(i));
    }
}

proof fn lemma_trim_back_all_ws(s: Seq<char>)
    requires
        s.len() == 0 || !is_ws(s.last()),
    ensures
        trim_back(s) == s.take(s.len() as int),
{
    assert(s.take(s.len() as int) =~= s);
}

proof fn lemma_trim_back_prefix(s: Seq<char>)
    ensures
        trim_back(s).len() <= s.len(),
        forall|i: int| 0 <= i < trim_back(s).len() ==> #[trigger] trim_back(s)[i] == s[i],
    decreases s.len(),
{
    if s.len() > 0 && is_ws(s.last()) {
        lemma_trim_back_prefix(s.drop_last());
        assert forall|i: int| 0 <= i < trim_back(s).len() implies #[trigger] trim_back(s)[i]
            == s[i] by {
            assert(trim_back(s)[i] == trim_back(s.drop_last())[i]);
            assert(s.drop_last()[i] == s[i]);
        }
    }
}

proof fn lemma_trim_front_head(s: Seq<char>)
    ensures
        trim_front(s).len() > 0 ==> !is_ws(trim_front(s)[0]),
    decreases s.len(),
{
    if s.len() > 0 && is_ws(s[0]) {
        lemma_trim_front_head(s.drop_first());
    }
}

proof fn lemma_trim_back_last(s: Seq<char>)
    ensures
        trim_back(s).len() > 0 ==> !is_ws(trim_back(s).last()),
    decreases s.len(),
{
    if s.len() > 0 && is_ws(s.last()) {
        lemma_trim_back_last(s.drop_last());
    }
}

/// Trimming is idempotent: what one trim leaves, another trim keeps.
pub proof fn lemma_trim_idempotent(s: Seq<char>)
    ensures
        trim_spec(trim_spec(s)) == trim_spec(s),
{
    let ft = trim_front(s);
    let t = trim_back(ft);
    lemma_trim_back_prefix(ft);
    lemma_trim_front_head(s);
    lemma_trim_back_last(ft);
    if t.len() > 0 {
        assert(t[0] == ft[0]);
        assert(!is_ws(t[0]));
    }
    assert(trim_front(t) == t);
    assert(trim_back(t) == t);
}

/// Collect the characters of a string into a vector.
pub fn to_chars(s: &str) -> (r: Vec<char>)
    ensures
        r@ == s@,
{
    let n = s.unicode_len();
    let mut r: Vec<char> = Vec::new();
    let mut i: usize = 0;
    while i < n
        invariant
            n == s@.len(),
            i <= n,
            r@ == s@.take(i as int),
        decreases n - i,
    {
        r.push(s.get_char(i));
        assert(s@.take(i + 1) =~= s@.take(i as int).push(s@[i as int]));
        i = i + 1;
    }
    assert(s@.take(n as int) =~= s@);
    r
}

/// Relies on `core::iter::Iterator::collect` building a `String` from the
/// characters of the vector, in order.
#[verifier::external_body]
pub fn chars_to_string(v: &Vec<char>) -> (r: String)
    ensures
        r@ == v@,
{
    v.iter().collect()
}

/// Trim ASCII whitespace from both ends of a character vector.
pub fn trim_chars(v: &Vec<char>) -> (r: Vec<char>)
    ensures
        r@ == trim_spec(v@),
{
    let n = v.len();
    let mut a: usize = 0;
    while a < n && is_ws_exec(v[a])
        invariant
            n == v@.len(),
            a <= n,
            forall|j: int| 0 <= j < a ==> is_ws(v@[j]),
        decreases n - a,
    {
        a = a + 1;
    }
    proof {
        lemma_trim_front_skip(v@, a as int);
    }
    let mut b: usize = n;
    while b > a && is_ws_exec(v[b - 1])
        invariant
            n == v@.len(),
            a <= b <= n,
            forall|j: int| b <= j < n ==> is_ws(v@[j]),
        decreases b,
    {
        b = b - 1;
    }
    let ghost fr = v@.skip(a as int);
    proof {
        if b == a {
            lemma_trim_back_take(fr, 0);
        } else {
            lemma_trim_back_take(fr, b - a);
        }
    }
    let mut r: Vec<char> = Vec::new();
    let mut i: usize = a;
    while i < b
        invariant
            a <= i <= b <= n,
            n == v@.len(),
            r@ == v@.subrange(a as int, i as int),
        decreases b - i,
    {
        r.push(v[i]);
        assert(v@.subrange(a as int, i + 1) =~= v@.subrange(a as int, i as int).push(
            v@[i as int],
        ));
        i = i + 1;
    }
    assert(r@ =~= fr.take(b - a));
    r
}

/// Executable form of `is_ws`.
pub fn is_ws_exec(c: char) -> (r: bool)
    ensures
        r == is_ws(c),
{
    c == ' ' || c == '\t' || c == '\n' || c == '\r'
}

/// Trim ASCII whitespace from both ends of a string.
pub fn trim_str(s: &str) -> (r: String)
    ensures
        r@ == trim_spec(s@),
{
    let v = to_chars(s);
    let t = trim_chars(&v);
    chars_to_string(&t)
}

/// The needle `n` occurs in `h` starting at position `i`.
pub open spec fn match_at(h: Seq<char>, n: Seq<char>, i: int) -> bool {
    0 <= i && i + n.len() <= h.len() && h.subrange(i, i + n.len()) == n
}

/// The needle `n` occurs somewhere in `h`.
pub open spec fn contains_spec(h: Seq<char>, n: Seq<char>) -> bool {
    exists|i: int| match_at(h, n, i)
}

/// Whether `n` occurs in `h` at position `i` (both as character vectors).
pub fn matches_at_exec(h: &Vec<char>, n: &Vec<char>, i: usize) -> (r: bool)
    requires
        i + n@.len() <= h@.len(),
    ensures
        r == match_at(h@, n@, i as int),
{
    let mut j: usize = 0;
    let nl = n.len();
    let hl = h.len();
    while j < nl
        invariant
            nl == n@.len(),
            hl == h@.len(),
            i + nl <= hl,
            j <= nl,
            forall|k: int| 0 <= k < j ==> h@[i + k] == n@[k],
        decreases nl - j,
    {
        if h[i + j] != n[j] {
            assert(h@.subrange(i as int, i + n@.len())[j as int] != n@[j as int]);
            return false;
        }
        j = j + 1;
    }
    assert(h@.subrange(i as int, i + n@.len()) =~= n@);
    true
}

/// Find the first occurrence of `n` in `h` at a position `>= from`.
pub fn find_from(h: &Vec<char>, n: &Vec<char>, from: usize) -> (r: Option<usize>)
    ensures
        match r {
            Some(i) => from <= i && match_at(h@, n@, i as int) && forall|k: int|
                from <= k < i ==> !match_at(h@, n@, k),
            None => forall|k: int| from <= k ==> !match_at(h@, n@, k),
        },
{
    let hl = h.len();
    let nl = n.len();
    if nl > hl {
        return None;
    }
    let last = hl - nl;
    if from > last {
        return None;
    }
    let mut i: usize = from;
    loop
        invariant
            hl == h@.len(),
            nl == n@.len(),
            nl <= hl,
            last == hl - nl,
            from <= i <= last,
            forall|k: int| from <= k < i ==> !match_at(h@, n@, k),
        decreases last - i,
    {
        if matches_at_exec(h, n, i) {
            return Some(i);
        }
        if i == last {
            return None;
        }
        i = i + 1;
    }
}

/// Whether `h` ends with `n`.
pub open spec fn ends_with_spec(h: Seq<char>, n: Seq<char>) -> bool {
    h.len() >= n.len() && h.skip(h.len() - n.len()) == n
}

/// Whether the character vector `h` ends with `n`.
pub fn ends_with(h: &Vec<char>, n: &Vec<char>) -> (r: bool)
    ensures
        r == ends_with_spec(h@, n@),
{
    let hl = h.len();
    let nl = n.len();
    if nl > hl {
        return false;
    }
    let m = matches_at_exec(h, n, hl - nl);
    proof {
        assert(h@.subrange(hl - nl, hl as int) =~= h@.skip(hl - nl));
    }
    m
}

/// Whether the string `n` occurs in the string `h`.
pub fn str_contains(h: &str, n: &str) -> (r: bool)
    ensures
        r == contains_spec(h@, n@),
{
    let hv = to_chars(h);
    let nv = to_chars(n);
    match find_from(&hv, &nv, 0) {
        Some(_) => true,
        None => false,
    }
}

/// ASCII lowercase folding of one character.
pub open spec fn lower_char(c: char) -> char {
    if 'A' <= c && c <= 'Z' {
        ((c as u32) + 32) as char
    } else {
        c
    }
}

/// ASCII lowercase folding of a text.
pub open spec fn lower_spec(s: Seq<char>) -> Seq<char> {
    s.map_values(|c: char| lower_char(c))
}

/// Executable form of `lower_char`.
pub fn lower_char_exec(c: char) -> (r: char)
    ensures
        r == lower_char(c),
{
    if 'A' <= c && c <= 'Z' {
        (((c as u32) + 32) as u8) as char
    } else {
        c
    }
}

/// ASCII lowercase folding of a character vector.
pub fn lower_chars(v: &Vec<char>) -> (r: Vec<char>)
    ensures
        r@ == lower_spec(v@),
{
    let n = v.len();
    let mut r: Vec<char> = Vec::new();
    let mut i: usize = 0;
    while i < n
        invariant
            n == v@.len(),
            i <= n,
            r@ == lower_spec(v@).take(i as int),
        decreases n - i,
    {
        r.push(lower_char_exec(v[i]));
        assert(lower_spec(v@).take(i + 1) =~= lower_spec(v@).take(i as int).push(
            lower_spec(v@)[i as int],
        ));
        i = i + 1;
    }
    assert(lower_spec(v@).take(n as int) =~= lower_spec(v@));
    r
}

/// The lowercase hexadecimal digit for a value below 16.
pub open spec fn hex_digit(v: int) -> char {
    if v == 0 {
        '0'
    } else if v == 1 {
        '1'
    } else if v == 2 {
        '2'
    } else if v == 3 {
        '3'
    } else if v == 4 {
        '4'
    } else if v == 5 {
        '5'
    } else if v == 6 {
        '6'
    } else if v == 7 {
        '7'
    } else if v == 8 {
        '8'
    } else if v == 9 {
        '9'
    } else if v == 10 {
        'a'
    } else if v == 11 {
        'b'
    } else if v == 12 {
        'c'
    } else if v == 13 {
        'd'
    } else if v == 14 {
        'e'
    } else {
        'f'
    }
}

/// Executable form of `hex_digit`.
pub fn hex_digit_exec(v: u32) -> (r: char)
    requires
        v < 16,
    ensures
        r == hex_digit(v as int),
{
    match v {
        0 => '0',
        1 => '1',
        2 => '2',
        3 => '3',
        4 => '4',
        5 => '5',
        6 => '6',
        7 => '7',
        8 => '8',
        9 => '9',
        10 => 'a',
        11 => 'b',
        12 => 'c',
        13 => 'd',
        14 => 'e',
        _ => 'f',
    }
}

/// How one character is written inside a JSON string literal: quote and
/// backslash get a backslash escape, the common control characters get their
/// short escapes, any other control character is written as `\u00xx`, and
/// everything else stands for itself.
pub open spec fn escape_char(c: char) -> Seq<char> {
    if c == '"' {
        seq!['\\', '"']
    } else if c == '\\' {
        seq!['\\', '\\']
    } else if c == '\n' {
        seq!['\\', 'n']
    } else if c == '\r' {
        seq!['\\', 'r']
    } else if c == '\t' {
        seq!['\\', 't']
    } else if (c as u32) < 32 {
        seq!['\\', 'u', '0', '0', hex_digit((c as u32) as int / 16), hex_digit(
            (c as u32) as int % 16,
        )]
    } else {
        seq![c]
    }
}

/// The body of a JSON string literal holding the text `s`.
pub open spec fn escape_spec(s: Seq<char>) -> Seq<char>
    decreases s.len(),
{
    if s.len() == 0 {
        Seq::empty()
    } else {
        escape_char(s[0]) + escape_spec(s.drop_first())
    }
}

proof fn lemma_escape_push(s: Seq<char>, i: int)
    requires
        0 <= i < s.len(),
    ensures
        escape_spec(s.take(i + 1)) == escape_spec(s.take(i)) + escape_char(s[i]),
    decreases i,
{
    if i == 0 {
        assert(s.take(1).drop_first() =~= s.take(0));
        assert(escape_spec(s.take(1)) =~= escape_char(s[0]) + escape_spec(s.take(0)));
        assert(escape_spec(s.take(0)) + escape_char(s[0]) =~= escape_char(s[0]) + escape_spec(
            s.take(0),
        ));
    } else {
        lemma_escape_push(s.drop_first(), i - 1);
        assert(s.take(i + 1).drop_first() =~= s.drop_first().take(i));
        assert(s.take(i).drop_first() =~= s.drop_first().take(i - 1));
        assert(s.drop_first()[i - 1] == s[i]);
        assert(escape_spec(s.take(i + 1)) == escape_char(s[0]) + escape_spec(
            s.drop_first().take(i),
        ));
        assert(escape_spec(s.take(i)) == escape_char(s[0]) + escape_spec(
            s.drop_first().take(i - 1),
        ));
        assert(escape_char(s[0]) + (escape_spec(s.drop_first().take(i - 1)) + escape_char(s[i]))
            =~= (escape_char(s[0]) + escape_spec(s.drop_first().take(i - 1))) + escape_char(s[i]));
    }
}

/// Append the escaped form of one character to `out`.
fn push_escaped(out: &mut Vec<char>, c: char)
    ensures
        final(out)@ == old(out)@ + escape_char(c),
{
    if c == '"' {
        out.push('\\');
        out.push('"');
    } else if c == '\\' {
        out.push('\\');
        out.push('\\');
    } else if c == '\n' {
        out.push('\\');
        out.push('n');
    } else if c == '\r' {
        out.push('\\');
        out.push('r');
    } else if c == '\t' {
        out.push('\\');
        out.push('t');
    } else if (c as u32) < 32 {
        let v = c as u32;
        out.push('\\');
        out.push('u');
        out.push('0');
        out.push('0');
        out.push(hex_digit_exec(v / 16));
        out.push(hex_digit_exec(v % 16));
    } else {
        out.push(c);
    }
    assert(out@ =~= old(out)@ + escape_char(c));
}

/// Append the JSON-escaped form of the whole text `s` to `out`.
pub fn append_escaped(out: &mut Vec<char>, s: &str)
    ensures
        final(out)@ == old(out)@ + escape_spec(s@),
{
    let v = to_chars(s);
    let n = v.len();
    let mut i: usize = 0;
    assert(escape_spec(s@.take(0)) =~= Seq::<char>::empty());
    assert(out@ =~= old(out)@ + escape_spec(s@.take(0)));
    while i < n
        invariant
            n == v@.len(),
            v@ == s@,
            i <= n,
            out@ == old(out)@ + escape_spec(s@.take(i as int)),
        decreases n - i,
    {
        push_escaped(out, v[i]);
        proof {
            lemma_escape_push(s@, i as int);
            assert((old(out)@ + escape_spec(s@.take(i as int))) + escape_char(s@[i as int]) =~= old(
                out,
            )@ + (escape_spec(s@.take(i as int)) + escape_char(s@[i as int])));
        }
        i = i + 1;
    }
    assert(s@.take(n as int) =~= s@);
}

/// Append the characters of a string to a character vector.
pub fn append_str(out: &mut Vec<char>, s: &str)
    ensures
        final(out)@ == old(out)@ + s@,
{
    let v = to_chars(s);
    out.extend_from_slice(v.as_slice());
}

/// Whether two strings hold the same characters.
pub fn str_eq(a: &str, b: &str) -> (r: bool)
    ensures
        r == (a@ == b@),
{
    let av = to_chars(a);
    let bv = to_chars(b);
    if av.len() != bv.len() {
        return false;
    }
    let n = av.len();
    let mut i: usize = 0;
    while i < n
        invariant
            n == av@.len() == bv@.len(),
            av@ == a@,
            bv@ == b@,
            i <= n,
            forall|k: int| 0 <= k < i ==> av@[k] == bv@[k],
        decreases n - i,
    {
        if av[i] != bv[i] {
            return false;
        }
        i = i + 1;
    }
    assert(a@ =~= b@);
    true
}

/// A decimal digit.
pub open spec fn is_digit(c: char) -> bool {
    '0' <= c && c <= '9'
}

/// The value of one decimal digit.
pub open spec fn digit_val(c: char) -> int {
    c as u32 - '0' as u32
}

/// The value of a sequence of decimal digits, most significant first.
pub open spec fn digits_val(s: Seq<char>) -> int
    decreases s.len(),
{
    if s.len() == 0 {
        0
    } else {
        digits_val(s.drop_last()) * 10 + digit_val(s.last())
    }
}

/// How many leading characters of `s` are decimal digits.
pub open spec fn digit_run(s: Seq<char>) -> int
    decreases s.len(),
{
    if s.len() > 0 && is_digit(s[0]) {
        1 + digit_run(s.drop_first())
    } else {
        0
    }
}

/// The millisecond value of a fractional part `r` that follows the integer
/// digits: a dot followed by up to three digits, read as thousandths.
/// Anything else contributes nothing.
pub open spec fn frac_ms(r: Seq<char>) -> int {
    if r.len() >= 2 && r[0] == '.' && is_digit(r[1]) {
        digit_val(r[1]) * 100 + if r.len() >= 3 && is_digit(r[2]) {
            digit_val(r[2]) * 10 + if r.len() >= 4 && is_digit(r[3]) {
                digit_val(r[3])
            } else {
                0
            }
        } else {
            0
        }
    } else {
        0
    }
}

/// The number of milliseconds in a decimal text that names seconds, such as
/// a vendor-provided creation time: an optional minus sign, integer digits,
/// and an optional fraction of which the first three digits count. A text
/// without a leading digit reads as zero; more than fifteen integer digits
/// saturate to a sentinel of a million billion seconds.
pub open spec fn num_millis(s: Seq<char>) -> int {
    let neg = s.len() > 0 && s[0] == '-';
    let t = if neg {
        s.drop_first()
    } else {
        s
    };
    let k = digit_run(t);
    let mag = if k == 0 {
        0
    } else if k > 15 {
        1000000000000000000
    } else {
        digits_val(t.take(k)) * 1000 + frac_ms(t.skip(k))
    };
    if neg {
        -mag
    } else {
        mag
    }
}

/// Ten to the `n`th power.
pub open spec fn pow10(n: int) -> int
    decreases n,
{
    if n <= 0 {
        1
    } else {
        10 * pow10(n - 1)
    }
}

proof fn lemma_digits_val_bound(s: Seq<char>)
    requires
        forall|j: int| 0 <= j < s.len() ==> is_digit(s[j]),
    ensures
        0 <= digits_val(s) < pow10(s.len() as int),
    decreases s.len(),
{
    if s.len() > 0 {
        lemma_digits_val_bound(s.drop_last());
    }
}

proof fn lemma_pow10_pos(n: int)
    ensures
        pow10(n) >= 1,
    decreases n,
{
    if n > 0 {
        lemma_pow10_pos(n - 1);
    }
}

proof fn lemma_pow10_mono(a: int, b: int)
    requires
        0 <= a <= b,
    ensures
        pow10(a) <= pow10(b),
    decreases b,
{
    if a < b {
        lemma_pow10_mono(a, b - 1);
        lemma_pow10_pos(b - 1);
    }
}

/// Executable form of `is_digit`.
pub fn is_digit_exec(c: char) -> (r: bool)
    ensures
        r == is_digit(c),
{
    '0' <= c && c <= '9'
}

/// Read the millisecond value of a decimal seconds text.
pub fn parse_millis(v: &Vec<char>) -> (r: i64)
    ensures
        r as int == num_millis(v@),
{
    let n = v.len();
    let neg = n > 0 && v[0] == '-';
    let start: usize = if neg {
        1
    } else {
        0
    };
    let ghost t = if neg {
        v@.drop_first()
    } else {
        v@
    };
    assert(t =~= v@.subrange(start as int, n as int));
    let mut k: usize = 0;
    while start + k < n && is_digit_exec(v[start + k])
        invariant
            n == v@.len(),
            start <= 1,
            neg ==> start == 1,
            t == v@.subrange(start as int, n as int),
            start + k <= n,
            forall|j: int| 0 <= j < k ==> is_digit(t[j]),
        decreases n - start - k,
    {
        k = k + 1;
    }
    proof {
        lemma_digit_run_is(t, k as int);
    }
    if k == 0 {
        return 0;
    }
    if k > 15 {
        if neg {
            return -1000000000000000000;
        }
        return 1000000000000000000;
    }
    let mut acc: i64 = 0;
    let mut i: usize = 0;
    while i < k
        invariant
            n == v@.len(),
            start <= 1,
            t == v@.subrange(start as int, n as int),
            start + k <= n,
            i <= k <= 15,
            forall|j: int| 0 <= j < k ==> is_digit(t[j]),
            acc as int == digits_val(t.take(i as int)),
            0 <= acc as int,
            (acc as int) < pow10(i as int),
        decreases k - i,
    {
        let c = v[start + i];
        assert(is_digit(t[i as int]));
        let d = (c as u32) - 48;
        proof {
            assert(t.take(i + 1).drop_last() =~= t.take(i as int));
            lemma_digits_val_bound(t.take(i + 1));
            lemma_pow10_mono(i + 1, 15);
            reveal_with_fuel(pow10, 16);
            assert(pow10(15) == 1000000000000000);
        }
        acc = acc * 10 + (d as i64);
        i = i + 1;
    }
    let mut frac: i64 = 0;
    if start + k < n && v[start + k] == '.' && start + k + 1 < n && is_digit_exec(
        v[start + k + 1],
    ) {
        let ghost r = t.skip(k as int);
        assert(r[0] == '.' && is_digit(r[1]));
        let d1 = (v[start + k + 1] as u32) - 48;
        frac = (d1 as i64) * 100;
        if start + k + 2 < n && is_digit_exec(v[start + k + 2]) {
            let d2 = (v[start + k + 2] as u32) - 48;
            frac = frac + (d2 as i64) * 10;
            if start + k + 3 < n && is_digit_exec(v[start + k + 3]) {
                let d3 = (v[start + k + 3] as u32) - 48;
                frac = frac + (d3 as i64);
            }
        }
        assert(frac as int == frac_ms(r));
    } else {
        assert(frac_ms(t.skip(k as int)) == 0);
    }
    proof {
        lemma_pow10_mono(k as int, 15);
        reveal_with_fuel(pow10, 16);
        assert(pow10(15) == 1000000000000000);
    }
    let mag: i64 = acc * 1000 + frac;
    if neg {
        -mag
    } else {
        mag
    }
}

/// The integer value of a decimal text: an optional minus sign and integer
/// digits; any fraction is ignored. A text without a leading digit reads as
/// zero; more than fifteen digits saturate to the same sentinel as
/// `num_millis`.
pub open spec fn num_int(s: Seq<char>) -> int {
    let neg = s.len() > 0 && s[0] == '-';
    let t = if neg {
        s.drop_first()
    } else {
        s
    };
    let k = digit_run(t);
    let mag = if k == 0 {
        0
    } else if k > 15 {
        1000000000000000000
    } else {
        digits_val(t.take(k))
    };
    if neg {
        -mag
    } else {
        mag
    }
}

/// Read the integer value of a decimal text.
pub fn parse_int(v: &Vec<char>) -> (r: i64)
    ensures
        r as int == num_int(v@),
{
    let n = v.len();
    let neg = n > 0 && v[0] == '-';
    let start: usize = if neg {
        1
    } else {
        0
    };
    let ghost t = if neg {
        v@.drop_first()
    } else {
        v@
    };
    assert(t =~= v@.subrange(start as int, n as int));
    let mut k: usize = 0;
    while start + k < n && is_digit_exec(v[start + k])
        invariant
            n == v@.len(),
            start <= 1,
            neg ==> start == 1,
            t == v@.subrange(start as int, n as int),
            start + k <= n,
            forall|j: int| 0 <= j < k ==> is_digit(t[j]),
        decreases n - start - k,
    {
        k = k + 1;
    }
    proof {
        lemma_digit_run_is(t, k as int);
    }
    if k == 0 {
        return 0;
    }
    if k > 15 {
        if neg {
            return -1000000000000000000;
        }
        return 1000000000000000000;
    }
    let mut acc: i64 = 0;
    let mut i: usize = 0;
    while i < k
        invariant
            n == v@.len(),
            start <= 1,
            t == v@.subrange(start as int, n as int),
            start + k <= n,
            i <= k <= 15,
            forall|j: int| 0 <= j < k ==> is_digit(t[j]),
            acc as int == digits_val(t.take(i as int)),
            0 <= acc as int,
            (acc as int) < pow10(i as int),
        decreases k - i,
    {
        let c = v[start + i];
        assert(is_digit(t[i as int]));
        let d = (c as u32) - 48;
        proof {
            assert(t.take(i + 1).drop_last() =~= t.take(i as int));
            lemma_digits_val_bound(t.take(i + 1));
            lemma_pow10_mono(i + 1, 15);
            reveal_with_fuel(pow10, 16);
            assert(pow10(15) == 1000000000000000);
        }
        acc = acc * 10 + (d as i64);
        i = i + 1;
    }
    if neg {
        -acc
    } else {
        acc
    }
}

proof fn lemma_digit_run_is(s: Seq<char>, k: int)
    requires
        0 <= k <= s.len(),
        forall|j: int| 0 <= j < k ==> is_digit(s[j]),
        k < s.len() ==> !is_digit(s[k]),
    ensures
        digit_run(s) == k,
    decreases k,
{
    if k == 0 {
    } else {
        lemma_digit_run_is(s.drop_first(), k - 1);
    }
}

/// The decimal text of a nonnegative number.
pub open spec fn dec_text(n: int) -> Seq<char>
    decreases n,
{
    if n < 10 {
        seq![hex_digit(if n < 0 {
            0
        } else {
            n
        })]
    } else {
        dec_text(n / 10) + seq![hex_digit(n % 10)]
    }
}

/// Append the decimal text of `n`.
pub fn push_dec(out: &mut Vec<char>, n: u64)
    ensures
        final(out)@ == old(out)@ + dec_text(n as int),
    decreases n,
{
    if n >= 10 {
        push_dec(out, n / 10);
        out.push(hex_digit_exec((n % 10) as u32));
        assert(final(out)@ =~= old(out)@ + dec_text(n as int));
    } else {
        out.push(hex_digit_exec(n as u32));
        assert(final(out)@ =~= old(out)@ + dec_text(n as int));
    }
}

/// One step of the rolling content hash: multiply by 31 and add the next
/// character, wrapping at thirty-two bits.
pub open spec fn hash_step(h: u32, c: char) -> u32 {
    vstd::wrapping::u32_specs::wrapping_add(
        vstd::wrapping::u32_specs::wrapping_mul(h, 31),
        c as u32,
    )
}

/// The rolling hash of a text, used as the dedup key of a message that has
/// no vendor-assigned identifier.
pub open spec fn content_hash_spec(s: Seq<char>) -> u32
    decreases s.len(),
{
    if s.len() == 0 {
        0u32
    } else {
        hash_step(content_hash_spec(s.drop_last()), s.last())
    }
}

/// Compute the rolling hash of a character vector.
pub fn content_hash_chars(v: &Vec<char>) -> (r: u32)
    ensures
        r == content_hash_spec(v@),
{
    let n = v.len();
    let mut h: u32 = 0;
    let mut i: usize = 0;
    while i < n
        invariant
            n == v@.len(),
            i <= n,
            h == content_hash_spec(v@.take(i as int)),
        decreases n - i,
    {
        let c = v[i];
        h = h.wrapping_mul(31).wrapping_add(c as u32);
        assert(v@.take(i + 1).drop_last() =~= v@.take(i as int));
        i = i + 1;
    }
    assert(v@.take(n as int) =~= v@);
    h
}

/// Compute the rolling hash of a string.
pub fn content_hash(s: &str) -> (r: u32)
    ensures
        r == content_hash_spec(s@),
{
    let v = to_chars(s);
    content_hash_chars(&v)
}

} // verus!
