//! Captured packets and the recognition of HTTP requests in their payload.
use vstd::prelude::*;

use crate::headers::HeaderMap;
use crate::text::{
    chars_contain, chars_of, contains, find_char, find_char_in, line_ranges, lines,
    occurs_at, push_chars, range_equals, range_starts_with, starts_with, string_of, trim,
    trim_range, utf8_len, utf8_len_below, word_ranges, words, is_white_space, lemma_token_len_exact,
    lemma_newline_pos_exact, strip_cr, trim_start, trim_end, utf8_width,
};

verus! {

/// A TCP segment seen on the wire, with what the monitor keeps of it.
pub struct NetworkPacket {
    pub src_ip: String,
    pub dst_ip: String,
    pub src_port: u16,
    pub dst_port: u16,
    pub _protocol: String,
    pub payload: Vec<u8>,
    /// When the packet was captured, in milliseconds since the Unix epoch.
    pub _timestamp: i64,
    pub _tcp_seq: Option<u32>,
    pub _tcp_ack: Option<u32>,
    pub _tcp_flags: Option<u8>,
}

/// An HTTP request recognised in captured traffic.
pub struct HttpRequest {
    pub method: String,
    pub url: String,
    pub headers: HeaderMap,
    pub body: Vec<u8>,
    pub source_ip: String,
    pub source_port: u16,
}

/// Recognises HTTP requests in packet payloads.
pub struct HttpParser {}

// ---------------------------------------------------------------------
// Method tokens in payload bytes
// ---------------------------------------------------------------------

/// The `i`-th request-method token that the monitor looks for in raw
/// payload bytes: the method name followed by one space.
pub open spec fn method_token(i: int) -> Seq<u8> {
    if i == 0 {
        seq![71u8, 69, 84, 32]  // "GET "
    } else if i == 1 {
        seq![80u8, 79, 83, 84, 32]  // "POST "
    } else if i == 2 {
        seq![80u8, 85, 84, 32]  // "PUT "
    } else if i == 3 {
        seq![68u8, 69, 76, 69, 84, 69, 32]  // "DELETE "
    } else if i == 4 {
        seq![72u8, 69, 65, 68, 32]  // "HEAD "
    } else if i == 5 {
        seq![79u8, 80, 84, 73, 79, 78, 83, 32]  // "OPTIONS "
    } else if i == 6 {
        seq![80u8, 65, 84, 67, 72, 32]  // "PATCH "
    } else if i == 7 {
        seq![67u8, 79, 78, 78, 69, 67, 84, 32]  // "CONNECT "
    } else {
        seq![84u8, 82, 65, 67, 69, 32]  // "TRACE "
    }
}

/// Number of request-method tokens.
pub open spec fn method_token_count() -> int {
    9
}

/// Whether the token `m` is found in `data`: at its start, or, in a payload
/// of at most 64 bytes, anywhere.
pub open spec fn token_found(data: Seq<u8>, m: Seq<u8>) -> bool {
    data.len() >= m.len() && (starts_with(data, m) || (data.len() <= 64 && contains(data, m)))
}

/// Whether a payload looks like it carries an HTTP request: it is at least
/// four bytes long and one of the method tokens is found in it.
pub open spec fn has_http_method(data: Seq<u8>) -> bool {
    data.len() >= 4 && exists|i: int|
        0 <= i < method_token_count() && #[trigger] token_found(data, method_token(i))
}

fn method_token_bytes(i: usize) -> (r: Vec<u8>)
    requires
        i < 9,
    ensures
        r@ == method_token(i as int),
{
    let r = if i == 0 {
        vec![71u8, 69, 84, 32]
    } else if i == 1 {
        vec![80u8, 79, 83, 84, 32]
    } else if i == 2 {
        vec![80u8, 85, 84, 32]
    } else if i == 3 {
        vec![68u8, 69, 76, 69, 84, 69, 32]
    } else if i == 4 {
        vec![72u8, 69, 65, 68, 32]
    } else if i == 5 {
        vec![79u8, 80, 84, 73, 79, 78, 83, 32]
    } else if i == 6 {
        vec![80u8, 65, 84, 67, 72, 32]
    } else if i == 7 {
        vec![67u8, 79, 78, 78, 69, 67, 84, 32]
    } else {
        vec![84u8, 82, 65, 67, 69, 32]
    };
    assert(r@ =~= method_token(i as int));
    r
}

fn bytes_match_at(v: &[u8], p: &[u8], i: usize) -> (r: bool)
    ensures
        r == occurs_at(v@, p@, i as int),
{
    if i > v.len() || p.len() > v.len() - i {
        return false;
    }
    let mut k: usize = 0;
    while k < p.len()
        invariant
            i + p@.len() <= v@.len(),
            v@.len() == v.len(),
            k <= p@.len(),
            forall|m: int| 0 <= m < k ==> v@[i + m] == p@[m],
        decreases p@.len() - k,
    {
        if v[i + k] != p[k] {
            assert(v@.subrange(i as int, i + p@.len())[k as int] != p@[k as int]);
            return false;
        }
        k = k + 1;
    }
    assert(v@.subrange(i as int, i + p@.len()) =~= p@);
    true
}

fn bytes_contain(v: &[u8], p: &[u8]) -> (r: bool)
    ensures
        r == contains(v@, p@),
{
    let mut i: usize = 0;
    while i < v.len()
        invariant
            i <= v@.len(),
            forall|m: int| 0 <= m < i ==> !occurs_at(v@, p@, m),
        decreases v@.len() - i,
    {
        if bytes_match_at(v, p, i) {
            return true;
        }
        i = i + 1;
    }
    if bytes_match_at(v, p, i) {
        return true;
    }
    assert forall|m: int| !occurs_at(v@, p@, m) by {
        if m > i {
            assert(!(m + p@.len() <= v@.len()));
        }
    }
    false
}

// ---------------------------------------------------------------------
// Request text
// ---------------------------------------------------------------------

/// The lowercase form of a text, as `str::to_lowercase` computes it.
pub uninterp spec fn lowercase(s: Seq<char>) -> Seq<char>;

/// `str::to_lowercase`.
#[verifier::external_body]
pub(crate) fn to_lowercase(s: &str) -> (r: String)
    ensures
        r@ == lowercase(s@),
{
    s.to_lowercase()
}

/// The characters that `String::from_utf8_lossy` decodes `bytes` into:
/// valid UTF-8 is decoded, each invalid sequence becomes U+FFFD.
pub uninterp spec fn utf8_lossy(bytes: Seq<u8>) -> Seq<char>;

/// `String::from_utf8_lossy`; on valid UTF-8 it is plain decoding.
#[verifier::external_body]
pub(crate) fn decode_utf8_lossy(bytes: &[u8]) -> (r: String)
    ensures
        r@ == utf8_lossy(bytes@),
        vstd::utf8::valid_utf8(bytes@) ==> r@ == vstd::utf8::decode_utf8(bytes@),
{
    String::from_utf8_lossy(bytes).into_owned()
}

/// The method names that may begin a request line.
pub open spec fn is_method_name(w: Seq<char>) -> bool {
    ||| w == "GET"@
    ||| w == "POST"@
    ||| w == "PUT"@
    ||| w == "DELETE"@
    ||| w == "HEAD"@
    ||| w == "OPTIONS"@
    ||| w == "PATCH"@
    ||| w == "CONNECT"@
    ||| w == "TRACE"@
}

/// A line that can be the request line: not blank, at least five bytes
/// long, with at least three words of which the first is a method name.
pub open spec fn is_request_line(l: Seq<char>) -> bool {
    &&& trim(l).len() > 0
    &&& utf8_len(l) >= 5
    &&& words(l).len() >= 3
    &&& is_method_name(words(l)[0])
}

/// Index of the first request line at or after `i`.
pub open spec fn first_request_line(ls: Seq<Seq<char>>, i: int) -> Option<int>
    decreases ls.len() - i,
{
    if i < 0 || i >= ls.len() {
        None
    } else if is_request_line(ls[i]) {
        Some(i)
    } else {
        first_request_line(ls, i + 1)
    }
}

/// The header that a trimmed, non-empty header line gives: a lowercase
/// name before the first colon (which must not be the first character) and
/// the trimmed value after it.
pub open spec fn header_line(t: Seq<char>) -> Option<(Seq<char>, Seq<char>)> {
    match find_char(t, ':') {
        Some(c) => if c > 0 {
            Some((lowercase(trim(t.subrange(0, c))), trim(t.subrange(c + 1, t.len() as int))))
        } else {
            None
        },
        None => None,
    }
}

/// The headers of the lines from `i` on, added to `m`: up to the first blank
/// line, a later header overriding an earlier one with the same name.
pub open spec fn header_block(ls: Seq<Seq<char>>, i: int, m: Map<Seq<char>, Seq<char>>) -> Map<
    Seq<char>,
    Seq<char>,
>
    decreases ls.len() - i,
{
    if i < 0 || i >= ls.len() {
        m
    } else if trim(ls[i]).len() == 0 {
        m
    } else {
        match header_line(trim(ls[i])) {
            Some(kv) => header_block(ls, i + 1, m.insert(kv.0, kv.1)),
            None => header_block(ls, i + 1, m),
        }
    }
}

/// The value of `name` in `m`, or the empty text.
pub open spec fn value_or_empty(m: Map<Seq<char>, Seq<char>>, name: Seq<char>) -> Seq<char> {
    if m.contains_key(name) {
        m[name]
    } else {
        Seq::empty()
    }
}

/// The absolute URL of a request target: an absolute target is kept, a
/// scheme-relative one gets the scheme, any other is put under the host.
/// The scheme is https when the target says so or when the
/// `x-forwarded-proto` header is `https`.
pub open spec fn request_url(path: Seq<char>, headers: Map<Seq<char>, Seq<char>>) -> Seq<char> {
    let https = (headers.contains_key("x-forwarded-proto"@) && headers["x-forwarded-proto"@]
        == "https"@) || starts_with(path, "https://"@);
    let scheme = if https {
        "https"@
    } else {
        "http"@
    };
    if starts_with(path, "http://"@) || starts_with(path, "https://"@) {
        path
    } else if starts_with(path, "//"@) {
        scheme + ":"@ + path
    } else {
        scheme + "://"@ + value_or_empty(headers, "host"@) + path
    }
}

/// Whether a text can hold an HTTP request at all: it mentions an HTTP
/// version or one of the methods GET, POST, PUT.
pub open spec fn mentions_http(s: Seq<char>) -> bool {
    contains(s, " HTTP/"@) || contains(s, "GET "@) || contains(s, "POST "@) || contains(
        s,
        "PUT "@,
    )
}

/// The request that a text holds, as (method, url, headers): the first
/// request line gives method and target, the lines after it up to the first
/// blank one give the headers.
pub open spec fn request_of_text(s: Seq<char>) -> Option<
    (Seq<char>, Seq<char>, Map<Seq<char>, Seq<char>>),
> {
    if !mentions_http(s) {
        None
    } else {
        let ls = lines(s);
        match first_request_line(ls, 0) {
            None => None,
            Some(i) => {
                let ws = words(ls[i]);
                let headers = header_block(ls, i + 1, Map::empty());
                Some((ws[0], request_url(ws[1], headers), headers))
            },
        }
    }
}

/// `request` is what `request_of_text` gives, with an empty body and no
/// source address yet.
pub open spec fn is_request_of_text(s: Seq<char>, request: HttpRequest) -> bool {
    &&& request_of_text(s) == Some((request.method@, request.url@, request.headers@))
    &&& request.body@.len() == 0
    &&& request.source_ip@.len() == 0
    &&& request.source_port == 0
}

/// Whether `v[lo..hi]` is a method name.
fn range_is_method_name(v: &[char], lo: usize, hi: usize) -> (r: bool)
    requires
        lo <= hi <= v@.len(),
    ensures
        r == is_method_name(v@.subrange(lo as int, hi as int)),
{
    range_equals(v, lo, hi, &chars_of("GET")) || range_equals(v, lo, hi, &chars_of("POST"))
        || range_equals(v, lo, hi, &chars_of("PUT")) || range_equals(v, lo, hi, &chars_of("DELETE"))
        || range_equals(v, lo, hi, &chars_of("HEAD")) || range_equals(
        v,
        lo,
        hi,
        &chars_of("OPTIONS"),
    ) || range_equals(v, lo, hi, &chars_of("PATCH")) || range_equals(
        v,
        lo,
        hi,
        &chars_of("CONNECT"),
    ) || range_equals(v, lo, hi, &chars_of("TRACE"))
}

/// The word ranges of `v[lo..hi]` when it is a request line.
fn request_line_words(v: &[char], lo: usize, hi: usize) -> (r: Option<Vec<(usize, usize)>>)
    requires
        lo <= hi <= v@.len(),
    ensures
        r is Some <==> is_request_line(v@.subrange(lo as int, hi as int)),
        r matches Some(ws) ==> {
            &&& ws@.len() >= 3
            &&& forall|k: int|
                0 <= k < 3 ==> {
                    &&& (#[trigger] ws@[k]).0 <= ws@[k].1 <= v@.len()
                    &&& v@.subrange(ws@[k].0 as int, ws@[k].1 as int) == words(
                        v@.subrange(lo as int, hi as int),
                    )[k]
                }
        },
{
    let (a, b) = trim_range(v, lo, hi);
    if a == b {
        return None;
    }
    if utf8_len_below(v, lo, hi, 5) {
        return None;
    }
    let ws = word_ranges(v, lo, hi);
    if ws.len() < 3 {
        return None;
    }
    let (w0, w1) = ws[0];
    if !range_is_method_name(v, w0, w1) {
        return None;
    }
    assert(forall|k: int| 0 <= k < 3 ==> (#[trigger] ws@[k]).0 <= ws@[k].1 <= v@.len());
    Some(ws)
}

impl HttpParser {
    /// A parser; it holds no state.
    pub fn new() -> (r: HttpParser) {
        HttpParser {  }
    }

    /// Whether a payload looks like it carries an HTTP request (see
    /// `has_http_method`).
    pub fn contains_http_method(data: &[u8]) -> (r: bool)
        ensures
            r == has_http_method(data@),
    {
        if data.len() < 4 {
            return false;
        }
        let mut i: usize = 0;
        while i < 9
            invariant
                i <= 9,
                data@.len() >= 4,
                forall|j: int| 0 <= j < i ==> !#[trigger] token_found(data@, method_token(j)),
            decreases 9 - i,
        {
            let m = method_token_bytes(i);
            if data.len() >= m.len() {
                if bytes_match_at(data, &m, 0) {
                    assert(data@.subrange(0, m@.len() as int) == m@);
                    assert(token_found(data@, method_token(i as int)));
                    return true;
                }
                if data.len() <= 64 && bytes_contain(data, &m) {
                    assert(token_found(data@, method_token(i as int)));
                    return true;
                }
            }
            assert(!occurs_at(data@, m@, 0) ==> !starts_with(data@, m@));
            i = i + 1;
        }
        false
    }

    /// The HTTP request held in a text (see `request_of_text`).
    pub fn parse_http_request_from_string(data_str: &str) -> (r: Option<HttpRequest>)
        ensures
            match r {
                Some(req) => is_request_of_text(data_str@, req),
                None => request_of_text(data_str@) is None,
            },
    {
        let v = chars_of(data_str);
        if !chars_contain(&v, &chars_of(" HTTP/")) && !chars_contain(&v, &chars_of("GET "))
            && !chars_contain(&v, &chars_of("POST ")) && !chars_contain(&v, &chars_of("PUT ")) {
            return None;
        }
        let ls = line_ranges(&v);
        let ghost lsv = lines(v@);
        // The request line.
        let mut idx: usize = 0;
        let mut found: Option<Vec<(usize, usize)>> = None;
        while idx < ls.len() && found.is_none()
            invariant
                idx <= ls@.len() == lsv.len(),
                lsv == lines(v@),
                forall|k: int|
                    0 <= k < ls@.len() ==> {
                        &&& (#[trigger] ls@[k]).0 <= ls@[k].1 <= v@.len()
                        &&& v@.subrange(ls@[k].0 as int, ls@[k].1 as int) == lsv[k]
                    },
                found is None ==> first_request_line(lsv, 0) == first_request_line(
                    lsv,
                    idx as int,
                ),
                found matches Some(ws) ==> {
                    &&& idx < ls@.len()
                    &&& first_request_line(lsv, 0) == Some(idx as int)
                    &&& ws@.len() >= 3
                    &&& forall|k: int|
                        0 <= k < 3 ==> {
                            &&& (#[trigger] ws@[k]).0 <= ws@[k].1 <= v@.len()
                            &&& v@.subrange(ws@[k].0 as int, ws@[k].1 as int) == words(
                                lsv[idx as int],
                            )[k]
                        }
                },
            decreases ls@.len() - idx + (if found is None { 1int } else { 0int }),
        {
            let (a, b) = ls[idx];
            match request_line_words(&v, a, b) {
                Some(ws) => {
                    found = Some(ws);
                },
                None => {
                    idx = idx + 1;
                },
            }
        }
        let ws = match found {
            Some(ws) => ws,
            None => {
                assert(first_request_line(lsv, idx as int) is None);
                return None;
            },
        };
        let ghost wsv = words(lsv[idx as int]);
        let (m0, m1) = ws[0];
        let (p0, p1) = ws[1];
        let method = string_of(&v, m0, m1);
        // The headers.
        let mut headers = HeaderMap::new();
        let mut i = idx + 1;
        let mut done = false;
        while i < ls.len() && !done
            invariant
                idx < i <= ls@.len() == lsv.len(),
                done ==> header_block(lsv, i as int, headers@) == headers@,
                lsv == lines(v@),
                forall|k: int|
                    0 <= k < ls@.len() ==> {
                        &&& (#[trigger] ls@[k]).0 <= ls@[k].1 <= v@.len()
                        &&& v@.subrange(ls@[k].0 as int, ls@[k].1 as int) == lsv[k]
                    },
                header_block(lsv, idx + 1, Map::empty()) == header_block(
                    lsv,
                    i as int,
                    headers@,
                ),
            decreases ls@.len() - i + (if done { 0int } else { 1int }),
        {
            let (a, b) = ls[i];
            let (t0, t1) = trim_range(&v, a, b);
            if t0 == t1 {
                done = true;
                continue;
            }
            let ghost t = v@.subrange(t0 as int, t1 as int);
            match find_char_in(&v, t0, t1, ':') {
                Some(c) => {
                    if c > 0 {
                        let (k0, k1) = trim_range(&v, t0, t0 + c);
                        let (e0, e1) = trim_range(&v, t0 + c + 1, t1);
                        assert(t.subrange(0, c as int) =~= v@.subrange(t0 as int, t0 + c));
                        assert(t.subrange(c + 1, t.len() as int) =~= v@.subrange(
                            t0 + c + 1,
                            t1 as int,
                        ));
                        let raw_name = string_of(&v, k0, k1);
                        let name = to_lowercase(raw_name.as_str());
                        let value = string_of(&v, e0, e1);
                        headers.insert(name, value);
                    }
                },
                None => {},
            }
            i = i + 1;
        }
        let ghost hv = headers@;
        assert(header_block(lsv, idx + 1, Map::empty()) == hv);
        // The URL.
        let host: Vec<char> = match headers.get("host") {
            Some(h) => chars_of(h.as_str()),
            None => Vec::new(),
        };
        let https_value = "https".to_owned();
        let forwarded_https = match headers.get("x-forwarded-proto") {
            Some(p) => *p == https_value,
            None => false,
        };
        let https = forwarded_https || range_starts_with(&v, p0, p1, &chars_of("https://"));
        let mut url: Vec<char> = Vec::new();
        if range_starts_with(&v, p0, p1, &chars_of("http://")) || range_starts_with(
            &v,
            p0,
            p1,
            &chars_of("https://"),
        ) {
            push_chars(&mut url, &v[p0..p1]);
        } else if range_starts_with(&v, p0, p1, &chars_of("//")) {
            if https {
                push_chars(&mut url, &chars_of("https"));
            } else {
                push_chars(&mut url, &chars_of("http"));
            }
            push_chars(&mut url, &chars_of(":"));
            push_chars(&mut url, &v[p0..p1]);
        } else {
            if https {
                push_chars(&mut url, &chars_of("https"));
            } else {
                push_chars(&mut url, &chars_of("http"));
            }
            push_chars(&mut url, &chars_of("://"));
            push_chars(&mut url, &host);
            push_chars(&mut url, &v[p0..p1]);
        }
        let url_string = string_of(&url, 0, url.len());
        assert(url@.subrange(0, url@.len() as int) =~= url@);
        Some(
            HttpRequest {
                method,
                url: url_string,
                headers,
                body: Vec::new(),
                source_ip: String::new(),
                source_port: 0,
            },
        )
    }

    /// The HTTP request carried by a packet: its payload must be at least 16
    /// bytes and hold a method token; the payload is decoded as lossy UTF-8
    /// and parsed; the request takes the packet's source address.
    pub fn parse_http_request(packet: &NetworkPacket) -> (r: Option<HttpRequest>)
        ensures
            packet.payload@.len() < 16 || !has_http_method(packet.payload@) ==> r is None,
            packet.payload@.len() >= 16 && has_http_method(packet.payload@) ==> match r {
                Some(req) => {
                    &&& request_of_text(utf8_lossy(packet.payload@)) == Some(
                        (req.method@, req.url@, req.headers@),
                    )
                    &&& req.body@.len() == 0
                    &&& req.source_ip@ == packet.src_ip@
                    &&& req.source_port == packet.src_port
                },
                None => request_of_text(utf8_lossy(packet.payload@)) is None,
            },
    {
        if packet.payload.len() < 16 {
            return None;
        }
        if !HttpParser::contains_http_method(&packet.payload) {
            return None;
        }
        let text = decode_utf8_lossy(&packet.payload);
        match HttpParser::parse_http_request_from_string(text.as_str()) {
            Some(mut request) => {
                request.source_ip = packet.src_ip.clone();
                request.source_port = packet.src_port;
                Some(request)
            },
            None => None,
        }
    }
}


// ---------------------------------------------------------------------
// Laws
// ---------------------------------------------------------------------

proof fn lemma_first_request_line(ls: Seq<Seq<char>>, i: int)
    ensures
        first_request_line(ls, i) matches Some(j) ==> i <= j < ls.len() && is_request_line(ls[j]),
    decreases ls.len() - i,
{
    if 0 <= i < ls.len() && !is_request_line(ls[i]) {
        lemma_first_request_line(ls, i + 1);
    }
}

/// A request URL is absolute: it starts with `http://` or `https://`.
pub open spec fn is_absolute_url(u: Seq<char>) -> bool {
    starts_with(u, "http://"@) || starts_with(u, "https://"@)
}

proof fn lemma_request_url_absolute(path: Seq<char>, headers: Map<Seq<char>, Seq<char>>)
    ensures
        is_absolute_url(request_url(path, headers)),
{
    reveal_strlit("http://");
    reveal_strlit("https://");
    reveal_strlit("http");
    reveal_strlit("https");
    reveal_strlit(":");
    reveal_strlit("//");
    reveal_strlit("://");
    let https = (headers.contains_key("x-forwarded-proto"@) && headers["x-forwarded-proto"@]
        == "https"@) || starts_with(path, "https://"@);
    let scheme = if https {
        "https"@
    } else {
        "http"@
    };
    let u = request_url(path, headers);
    if starts_with(path, "http://"@) || starts_with(path, "https://"@) {
    } else if starts_with(path, "//"@) {
        let t = scheme + ":"@ + path;
        assert(path[0] == '/' && path[1] == '/') by {
            assert(path.subrange(0, 2)[0] == path[0]);
            assert(path.subrange(0, 2)[1] == path[1]);
        }
        if https {
            assert(t.subrange(0, 8) =~= "https://"@);
        } else {
            assert(t.subrange(0, 7) =~= "http://"@);
        }
    } else {
        let t = scheme + "://"@ + value_or_empty(headers, "host"@) + path;
        if https {
            assert(t.subrange(0, 8) =~= "https://"@);
        } else {
            assert(t.subrange(0, 7) =~= "http://"@);
        }
    }
}

/// Every request the parser gives has a known method name and an absolute
/// `http://` or `https://` URL.
pub proof fn parsed_request_is_well_formed(s: Seq<char>)
    ensures
        request_of_text(s) matches Some(r) ==> is_method_name(r.0) && is_absolute_url(r.1),
{
    if mentions_http(s) {
        let ls = lines(s);
        lemma_first_request_line(ls, 0);
        match first_request_line(ls, 0) {
            Some(i) => {
                let ws = words(ls[i]);
                lemma_request_url_absolute(ws[1], header_block(ls, i + 1, Map::empty()));
            },
            None => {},
        }
    }
}

/// The nine request method names.
pub open spec fn standard_method(m: Seq<char>) -> bool {
    ||| m == "GET"@
    ||| m == "POST"@
    ||| m == "PUT"@
    ||| m == "DELETE"@
    ||| m == "HEAD"@
    ||| m == "OPTIONS"@
    ||| m == "PATCH"@
    ||| m == "CONNECT"@
    ||| m == "TRACE"@
}

proof fn lemma_utf8_len_at_least_len(s: Seq<char>)
    ensures
        utf8_len(s) >= s.len(),
    decreases s.len(),
{
    if s.len() > 0 {
        lemma_utf8_len_at_least_len(s.drop_first());
    }
}

proof fn lemma_words_single(a: Seq<char>)
    requires
        a.len() > 0,
        forall|i: int| 0 <= i < a.len() ==> !is_white_space(#[trigger] a[i]),
    ensures
        words(a) == seq![a],
{
    lemma_token_len_exact(a, a.len() as int);
    assert(a.subrange(0, a.len() as int) =~= a);
    assert(a.subrange(a.len() as int, a.len() as int) =~= Seq::<char>::empty());
    assert(words(Seq::<char>::empty()) == Seq::<Seq<char>>::empty());
    assert(seq![a] + Seq::<Seq<char>>::empty() =~= seq![a]);
}

proof fn lemma_words_split(a: Seq<char>, b: Seq<char>)
    requires
        a.len() > 0,
        forall|i: int| 0 <= i < a.len() ==> !is_white_space(#[trigger] a[i]),
    ensures
        words(a + " "@ + b) == seq![a] + words(b),
{
    reveal_strlit(" ");
    let s = a + " "@ + b;
    assert(s[a.len() as int] == ' ');
    assert forall|i: int| 0 <= i < a.len() implies !is_white_space(#[trigger] s[i]) by {
        assert(s[i] == a[i]);
    }
    lemma_token_len_exact(s, a.len() as int);
    assert(s[0] == a[0]);
    assert(s.subrange(0, a.len() as int) =~= a);
    let t = s.subrange(a.len() as int, s.len() as int);
    assert(t[0] == ' ');
    assert(is_white_space(t[0]));
    assert(t.drop_first() =~= b);
    assert(words(t) == words(t.drop_first()));
    assert(!is_white_space(s[0]));
    assert(words(s) == seq![s.subrange(0, a.len() as int)] + words(t));
}

/// Every one of the nine standard methods starts a request: a text whose
/// first line is `<method> <target> HTTP/1.1` parses to a request with that
/// method and an absolute URL that ends with the target, whatever follows
/// the line.
pub proof fn every_standard_method_is_recognised(m: Seq<char>, target: Seq<char>, rest: Seq<char>)
    requires
        standard_method(m),
        target.len() > 0,
        forall|i: int| 0 <= i < target.len() ==> !is_white_space(#[trigger] target[i]),
    ensures
        request_of_text(m + " "@ + target + " HTTP/1.1\r\n"@ + rest) matches Some(r) && r.0 == m
            && is_absolute_url(r.1) && target.len() <= r.1.len() && r.1.subrange(
            r.1.len() - target.len(),
            r.1.len() as int,
        ) == target,
{
    reveal_strlit("GET");
    reveal_strlit("POST");
    reveal_strlit("PUT");
    reveal_strlit("DELETE");
    reveal_strlit("HEAD");
    reveal_strlit("OPTIONS");
    reveal_strlit("PATCH");
    reveal_strlit("CONNECT");
    reveal_strlit("TRACE");
    reveal_strlit(" ");
    reveal_strlit(" HTTP/1.1\r\n");
    reveal_strlit("HTTP/1.1");
    reveal_strlit(" HTTP/");
    let version = "HTTP/1.1"@;
    let line = m + " "@ + (target + " "@ + version);
    let text = m + " "@ + target + " HTTP/1.1\r\n"@ + rest;
    assert(m.len() > 0);
    assert forall|i: int| 0 <= i < m.len() implies !is_white_space(#[trigger] m[i]) by {}
    assert forall|i: int| 0 <= i < version.len() implies !is_white_space(#[trigger] version[i]) by {}
    // The text is the line, a CR LF, and the rest.
    assert(text =~= line + "\r\n"@ + rest) by {
        reveal_strlit("\r\n");
    }
    reveal_strlit("\r\n");
    let k = line.len() as int + 1;
    assert forall|i: int| 0 <= i < k implies #[trigger] text[i] != '\n' by {
        if i < m.len() {
            assert(text[i] == m[i]);
        } else if i < m.len() + 1 {
        } else if i < m.len() + 1 + target.len() {
            assert(text[i] == target[i - m.len() - 1]);
        } else {
        }
    }
    assert(text[k] == '\n');
    lemma_newline_pos_exact(text, k);
    let ls = lines(text);
    assert(text.subrange(0, k) =~= line.push('\r'));
    assert(strip_cr(line.push('\r')) =~= line);
    assert(ls[0] == line);
    // The line is a request line.
    lemma_words_single(version);
    lemma_words_split(target, version);
    lemma_words_split(m, target + " "@ + version);
    let ws = words(line);
    assert(ws =~= seq![m, target, version]);
    assert(line[0] == m[0]);
    assert(line.last() == version.last());
    assert(trim_start(line) == line);
    assert(trim_end(line) == line);
    lemma_utf8_len_at_least_len(line);
    assert(is_request_line(line));
    assert(first_request_line(ls, 0) == Some(0int));
    // It mentions HTTP.
    let j: int = (m.len() + 1 + target.len()) as int;
    assert(text.subrange(j, j + 6) =~= " HTTP/"@);
    assert(occurs_at(text, " HTTP/"@, j));
    assert(mentions_http(text));
    let headers = header_block(ls, 1, Map::empty());
    let url = request_url(target, headers);
    assert(request_of_text(text) == Some((m, url, headers)));
    lemma_request_url_absolute(target, headers);
    reveal_strlit("http://");
    reveal_strlit("https://");
    reveal_strlit("http");
    reveal_strlit("https");
    reveal_strlit(":");
    reveal_strlit("//");
    reveal_strlit("://");
    let n = url.len() - target.len();
    assert(url.subrange(n, url.len() as int) =~= target);
}

} // verus!
