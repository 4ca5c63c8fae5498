//! The proxy server's handling of a client's request line, and its replies.
use vstd::prelude::*;

use crate::text::{
    chars_of, find_char, find_char_in, push_str, string_of, string_of_all, word_ranges, words,
};

verus! {

/// What the proxy does with a connection, by its request line.
pub enum ProxyRequest {
    /// Close the connection without a reply.
    Ignore,
    /// Open a tunnel to `host:port`.
    Connect { host: String, port: u16 },
    /// Answer a plain HTTP request with a fixed text.
    Forward { method: String, target: String },
}

/// Whether `c` is an ASCII decimal digit.
pub open spec fn is_digit(c: char) -> bool {
    '0' <= c <= '9'
}

/// The number that a sequence of decimal digits denotes.
pub open spec fn digits_value(s: Seq<char>) -> nat
    decreases s.len(),
{
    if s.len() == 0 {
        0
    } else {
        digits_value(s.drop_last()) * 10 + ((s.last() as u32) - 48) as nat
    }
}

/// `s` without a leading `+`.
pub open spec fn without_plus(s: Seq<char>) -> Seq<char> {
    if s.len() > 0 && s[0] == '+' {
        s.drop_first()
    } else {
        s
    }
}

/// Every character of `d` is a decimal digit.
pub open spec fn all_digits(d: Seq<char>) -> bool {
    forall|i: int| 0 <= i < d.len() ==> is_digit(#[trigger] d[i])
}

/// `str::parse::<u16>`: an optional `+`, then one or more decimal digits
/// denoting at most 65535.
pub open spec fn parse_u16_of(s: Seq<char>) -> Option<u16> {
    let d = without_plus(s);
    if d.len() > 0 && all_digits(d) && digits_value(d) <= 65535 {
        Some(digits_value(d) as u16)
    } else {
        None
    }
}

/// The number of occurrences of `c` in `s`.
pub open spec fn char_count(s: Seq<char>, c: char) -> nat
    decreases s.len(),
{
    if s.len() == 0 {
        0
    } else {
        (if s[0] == c {
            1nat
        } else {
            0nat
        }) + char_count(s.drop_first(), c)
    }
}

/// The handling of a request line: fewer than two words are ignored; a
/// CONNECT to a target with exactly one colon opens a tunnel to the host
/// before it and the port after it (443 when that is not a port number);
/// a CONNECT to any other target is ignored; any other method is answered.
pub open spec fn proxy_request_of(line: Seq<char>) -> Option<
    (bool, Seq<char>, Seq<char>, Option<u16>),
> {
    let ws = words(line);
    if ws.len() < 2 {
        None
    } else if ws[0] == "CONNECT"@ {
        let t = ws[1];
        if char_count(t, ':') != 1 {
            None
        } else {
            let c = find_char(t, ':').unwrap();
            let port = match parse_u16_of(t.subrange(c + 1, t.len() as int)) {
                Some(p) => p,
                None => 443u16,
            };
            Some((true, t.subrange(0, c), Seq::empty(), Some(port)))
        }
    } else {
        Some((false, ws[0], ws[1], None))
    }
}

proof fn lemma_char_count_split(s: Seq<char>, i: int, c: char)
    requires
        0 <= i <= s.len(),
    ensures
        char_count(s, c) == char_count(s.subrange(0, i), c) + char_count(
            s.subrange(i, s.len() as int),
            c,
        ),
    decreases i,
{
    if i == 0 {
        assert(s.subrange(0, 0).len() == 0);
        assert(s.subrange(0, s.len() as int) =~= s);
    } else {
        let t = s.drop_first();
        lemma_char_count_split(t, i - 1, c);
        assert(s.subrange(0, i).drop_first() =~= t.subrange(0, i - 1));
        assert(t.subrange(i - 1, t.len() as int) =~= s.subrange(i, s.len() as int));
    }
}

proof fn lemma_find_char_count(s: Seq<char>, c: char)
    ensures
        find_char(s, c) is None <==> char_count(s, c) == 0,
        find_char(s, c) matches Some(k) ==> 0 <= k < s.len() && s[k] == c && char_count(
            s.subrange(0, k),
            c,
        ) == 0,
    decreases s.len(),
{
    if s.len() > 0 {
        let t = s.drop_first();
        lemma_find_char_count(t, c);
        if s[0] == c {
            assert(s.subrange(0, 0).len() == 0);
        } else {
            if let Some(k) = find_char(t, c) {
                assert(s.subrange(0, k + 1).drop_first() =~= t.subrange(0, k));
                assert(s[k + 1] == t[k]);
            }
        }
    }
}

/// The value of the decimal digits `v[lo..hi]`, if they denote at most
/// 65535.
fn digits_u16(v: &[char], lo: usize, hi: usize) -> (r: Option<u16>)
    requires
        lo <= hi <= v@.len(),
        forall|i: int| lo <= i < hi ==> is_digit(#[trigger] v@[i]),
    ensures
        r is Some <==> digits_value(v@.subrange(lo as int, hi as int)) <= 65535,
        r matches Some(n) ==> n == digits_value(v@.subrange(lo as int, hi as int)),
{
    let mut n: u32 = 0;
    let mut i = lo;
    while i < hi
        invariant
            lo <= i <= hi <= v@.len(),
            forall|j: int| lo <= j < hi ==> is_digit(#[trigger] v@[j]),
            n == digits_value(v@.subrange(lo as int, i as int)),
            n <= 65535,
        decreases hi - i,
    {
        let d = (v[i] as u32) - 48;
        assert(v@.subrange(lo as int, i + 1).drop_last() =~= v@.subrange(lo as int, i as int));
        if n > 6553 || (n == 6553 && d > 5) {
            proof {
                lemma_digits_grow(v@.subrange(lo as int, hi as int), (i + 1 - lo) as int);
                assert(v@.subrange(lo as int, hi as int).subrange(0, (i + 1 - lo) as int)
                    =~= v@.subrange(lo as int, i + 1));
            }
            return None;
        }
        n = n * 10 + d;
        i = i + 1;
    }
    Some(n as u16)
}

proof fn lemma_digits_grow(s: Seq<char>, k: int)
    requires
        0 <= k <= s.len(),
        forall|i: int| 0 <= i < s.len() ==> is_digit(#[trigger] s[i]),
    ensures
        digits_value(s.subrange(0, k)) <= digits_value(s),
    decreases s.len() - k,
{
    if k < s.len() {
        lemma_digits_grow(s, k + 1);
        assert(s.subrange(0, k + 1).drop_last() =~= s.subrange(0, k));
        assert(digits_value(s.subrange(0, k)) <= digits_value(s.subrange(0, k)) * 10)
            by (nonlinear_arith);
    } else {
        assert(s.subrange(0, k) =~= s);
    }
}

/// `str::parse::<u16>` on `v[lo..hi]` (see `parse_u16_of`).
pub fn parse_u16_range(v: &[char], lo: usize, hi: usize) -> (r: Option<u16>)
    requires
        lo <= hi <= v@.len(),
    ensures
        r == parse_u16_of(v@.subrange(lo as int, hi as int)),
{
    let ghost s = v@.subrange(lo as int, hi as int);
    let start = if lo < hi && v[lo] == '+' {
        lo + 1
    } else {
        lo
    };
    let ghost d = v@.subrange(start as int, hi as int);
    assert(d =~= (if s.len() > 0 && s[0] == '+' {
        s.drop_first()
    } else {
        s
    }));
    if start == hi {
        return None;
    }
    let mut i = start;
    while i < hi
        invariant
            start <= i <= hi <= v@.len(),
            d == v@.subrange(start as int, hi as int),
            s == v@.subrange(lo as int, hi as int),
            d == without_plus(s),
            forall|j: int| start <= j < i ==> is_digit(#[trigger] v@[j]),
        decreases hi - i,
    {
        if !('0' <= v[i] && v[i] <= '9') {
            assert(d[i - start] == v@[i as int]);
            assert(!is_digit(d[i - start]));
            assert(!all_digits(d));
            assert(parse_u16_of(s) is None);
            return None;
        }
        i = i + 1;
    }
    assert forall|j: int| 0 <= j < d.len() implies is_digit(#[trigger] d[j]) by {
        assert(d[j] == v@[start + j]);
    }
    digits_u16(v, start, hi)
}

/// The handling of a request line (see `proxy_request_of`).
pub fn classify_request_line(line: &str) -> (r: ProxyRequest)
    ensures
        match r {
            ProxyRequest::Ignore => proxy_request_of(line@) is None,
            ProxyRequest::Connect { host, port } => proxy_request_of(line@) == Some(
                (true, host@, Seq::<char>::empty(), Some(port)),
            ),
            ProxyRequest::Forward { method, target } => proxy_request_of(line@) == Some(
                (false, method@, target@, None::<u16>),
            ),
        },
{
    let v = chars_of(line);
    let ws = word_ranges(&v, 0, v.len());
    assert(v@.subrange(0, v@.len() as int) =~= v@);
    if ws.len() < 2 {
        return ProxyRequest::Ignore;
    }
    let (m0, m1) = ws[0];
    let (t0, t1) = ws[1];
    if !crate::text::range_equals(&v, m0, m1, &chars_of("CONNECT")) {
        return ProxyRequest::Forward { method: string_of(&v, m0, m1), target: string_of(&v, t0, t1) };
    }
    let ghost t = v@.subrange(t0 as int, t1 as int);
    let c = match find_char_in(&v, t0, t1, ':') {
        Some(c) => c,
        None => {
            proof {
                lemma_find_char_count(t, ':');
            }
            return ProxyRequest::Ignore;
        },
    };
    proof {
        lemma_find_char_count(t, ':');
        lemma_char_count_split(t, c as int, ':');
        let r = t.subrange(c as int, t.len() as int);
        assert(r.drop_first() =~= t.subrange(c + 1, t.len() as int));
        assert(r[0] == ':');
    }
    match find_char_in(&v, t0 + c + 1, t1, ':') {
        Some(_) => {
            proof {
                lemma_find_char_count(v@.subrange(t0 + c + 1, t1 as int), ':');
                assert(v@.subrange(t0 + c + 1, t1 as int) =~= t.subrange(c + 1, t.len() as int));
            }
            return ProxyRequest::Ignore;
        },
        None => {
            proof {
                lemma_find_char_count(v@.subrange(t0 + c + 1, t1 as int), ':');
                assert(v@.subrange(t0 + c + 1, t1 as int) =~= t.subrange(c + 1, t.len() as int));
            }
        },
    }
    let port = match parse_u16_range(&v, t0 + c + 1, t1) {
        Some(p) => p,
        None => 443,
    };
    assert(t.subrange(0, c as int) =~= v@.subrange(t0 as int, t0 + c));
    ProxyRequest::Connect { host: string_of(&v, t0, t0 + c), port }
}

/// The reply that opens a tunnel.
pub open spec fn tunnel_established_reply() -> Seq<char> {
    "HTTP/1.1 200 Connection Established\r\n\r\n"@
}

/// The reply when the tunnel's target cannot be reached.
pub open spec fn bad_gateway_reply() -> Seq<char> {
    "HTTP/1.1 502 Bad Gateway\r\n\r\n"@
}

/// The reply to a plain HTTP request with method `method`. Its
/// Content-Length header says 27 whatever the method.
pub open spec fn http_reply_of(method: Seq<char>) -> Seq<char> {
    "HTTP/1.1 200 OK\r\nContent-Type: text/plain\r\nContent-Length: 27\r\n\r\nProxy handled "@
        + method + " request"@
}

/// The reply that opens a tunnel.
pub fn tunnel_established() -> (r: String)
    ensures
        r@ == tunnel_established_reply(),
{
    "HTTP/1.1 200 Connection Established\r\n\r\n".to_owned()
}

/// The reply when the tunnel's target cannot be reached.
pub fn bad_gateway() -> (r: String)
    ensures
        r@ == bad_gateway_reply(),
{
    "HTTP/1.1 502 Bad Gateway\r\n\r\n".to_owned()
}

/// The reply to a plain HTTP request (see `http_reply_of`).
pub fn http_reply(method: &str) -> (r: String)
    ensures
        r@ == http_reply_of(method@),
{
    let mut v = chars_of(
        "HTTP/1.1 200 OK\r\nContent-Type: text/plain\r\nContent-Length: 27\r\n\r\nProxy handled ",
    );
    push_str(&mut v, method);
    push_str(&mut v, " request");
    string_of_all(&v)
}

} // verus!
