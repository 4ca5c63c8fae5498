//! Requests and responses of the HTTP client, and the decisions it takes
//! before a request goes out.
use vstd::prelude::*;

use crate::headers::{lemma_pairs_map_domain, names_distinct, pairs_map, HeaderMap};
use crate::network::{decode_utf8_lossy, utf8_lossy, HttpRequest};
use crate::text::{push_str, string_of_all};

verus! {

/// A request to send.
pub struct HttpRequestBuilder {
    pub method: String,
    pub url: String,
    pub headers: HeaderMap,
    pub body: Option<String>,
    pub timeout_seconds: u64,
    pub follow_redirects: bool,
    pub verify_ssl: bool,
}

/// What came back for a request.
pub struct HttpResponseInfo {
    pub status: u16,
    pub headers: HeaderMap,
    pub body: String,
    pub cookies: Vec<String>,
    pub response_time_ms: u64,
    pub final_url: String,
}

/// The request methods the client sends.
#[derive(PartialEq, Eq, Structural, Clone, Copy, Debug)]
pub enum HttpMethod {
    Get,
    Post,
    Put,
    Delete,
    Head,
    Options,
    Patch,
    Connect,
    Trace,
}

/// The uppercase form of a text, as `str::to_uppercase` computes it.
pub uninterp spec fn uppercase(s: Seq<char>) -> Seq<char>;

/// `str::to_uppercase`.
#[verifier::external_body]
fn to_uppercase(s: &str) -> (r: String)
    ensures
        r@ == uppercase(s@),
{
    s.to_uppercase()
}

/// The method that a method name selects: the name is compared in
/// uppercase, and an unknown name selects GET.
pub open spec fn method_of_name(name: Seq<char>) -> HttpMethod {
    let u = uppercase(name);
    if u == "POST"@ {
        HttpMethod::Post
    } else if u == "PUT"@ {
        HttpMethod::Put
    } else if u == "DELETE"@ {
        HttpMethod::Delete
    } else if u == "HEAD"@ {
        HttpMethod::Head
    } else if u == "OPTIONS"@ {
        HttpMethod::Options
    } else if u == "PATCH"@ {
        HttpMethod::Patch
    } else if u == "CONNECT"@ {
        HttpMethod::Connect
    } else if u == "TRACE"@ {
        HttpMethod::Trace
    } else {
        HttpMethod::Get
    }
}

/// The method that a method name selects (see `method_of_name`).
pub fn request_method(name: &str) -> (r: HttpMethod)
    ensures
        r == method_of_name(name@),
{
    let u = to_uppercase(name);
    if u == "POST".to_owned() {
        HttpMethod::Post
    } else if u == "PUT".to_owned() {
        HttpMethod::Put
    } else if u == "DELETE".to_owned() {
        HttpMethod::Delete
    } else if u == "HEAD".to_owned() {
        HttpMethod::Head
    } else if u == "OPTIONS".to_owned() {
        HttpMethod::Options
    } else if u == "PATCH".to_owned() {
        HttpMethod::Patch
    } else if u == "CONNECT".to_owned() {
        HttpMethod::Connect
    } else if u == "TRACE".to_owned() {
        HttpMethod::Trace
    } else {
        HttpMethod::Get
    }
}

/// `cookies` joined by `"; "`.
pub open spec fn joined_cookies(cookies: Seq<Seq<char>>) -> Seq<char>
    decreases cookies.len(),
{
    if cookies.len() == 0 {
        Seq::empty()
    } else if cookies.len() == 1 {
        cookies[0]
    } else {
        joined_cookies(cookies.drop_last()) + "; "@ + cookies.last()
    }
}

/// The `Cookie` header for the cookies that apply to a request: none when
/// there are none, else the cookies joined by `"; "`.
pub fn cookie_header(cookies: &Vec<String>) -> (r: Option<String>)
    ensures
        cookies@.len() == 0 ==> r is None,
        cookies@.len() > 0 ==> (r matches Some(h) && h@ == joined_cookies(
            cookies@.map_values(|c: String| c@),
        )),
{
    if cookies.len() == 0 {
        return None;
    }
    let ghost cs = cookies@.map_values(|c: String| c@);
    let mut v: Vec<char> = Vec::new();
    push_str(&mut v, cookies[0].as_str());
    assert(cs.subrange(0, 1) =~= seq![cs[0]]);
    assert(v@ =~= joined_cookies(cs.subrange(0, 1)));
    let mut i: usize = 1;
    while i < cookies.len()
        invariant
            1 <= i <= cookies@.len(),
            cs == cookies@.map_values(|c: String| c@),
            v@ == joined_cookies(cs.subrange(0, i as int)),
        decreases cookies@.len() - i,
    {
        push_str(&mut v, "; ");
        push_str(&mut v, cookies[i].as_str());
        assert(cs.subrange(0, i + 1).drop_last() =~= cs.subrange(0, i as int));
        i = i + 1;
    }
    assert(cs.subrange(0, i as int) =~= cs);
    Some(string_of_all(&v))
}

/// The time limit put on waiting for a response: the request's own, but
/// at least five seconds.
pub fn response_wait_seconds(timeout_seconds: u64) -> (r: u64)
    ensures
        r == (if timeout_seconds > 5 {
            timeout_seconds
        } else {
            5
        }),
{
    if timeout_seconds > 5 {
        timeout_seconds
    } else {
        5
    }
}

impl HttpRequestBuilder {
    /// The request that replays a captured one: same method, URL and
    /// headers; the body decoded as lossy UTF-8, or none when it is empty;
    /// a 30-second timeout, redirects followed and certificates verified.
    pub fn for_replay(captured: &HttpRequest) -> (r: HttpRequestBuilder)
        ensures
            r.method == captured.method,
            r.url == captured.url,
            r.headers@ == captured.headers@,
            captured.body@.len() == 0 ==> r.body is None,
            captured.body@.len() > 0 ==> (r.body matches Some(b) && b@ == utf8_lossy(
                captured.body@,
            )),
            r.timeout_seconds == 30,
            r.follow_redirects,
            r.verify_ssl,
    {
        let body = if captured.body.len() == 0 {
            None
        } else {
            Some(decode_utf8_lossy(captured.body.as_slice()))
        };
        HttpRequestBuilder {
            method: captured.method.clone(),
            url: captured.url.clone(),
            headers: captured.headers.duplicate(),
            body,
            timeout_seconds: 30,
            follow_redirects: true,
            verify_ssl: true,
        }
    }
}

// ---------------------------------------------------------------------
// Headers that can be sent
// ---------------------------------------------------------------------

/// Whether `http::HeaderName::from_bytes` accepts the UTF-8 bytes of a name
/// (a non-empty token of at most 64 KiB, by its table of header
/// characters).
pub uninterp spec fn header_name_accepted(name: Seq<char>) -> bool;

/// A byte that may stand in a header value: a tab, or any byte from 32 on
/// but 127.
pub open spec fn header_value_byte(b: u8) -> bool {
    (b >= 32 && b != 127) || b == 9
}

/// Whether every UTF-8 byte of a header value may stand in one.
pub open spec fn header_value_accepted(value: Seq<char>) -> bool {
    let bytes = vstd::utf8::encode_utf8(value);
    forall|i: int| 0 <= i < bytes.len() ==> header_value_byte(#[trigger] bytes[i])
}

/// `reqwest::header::HeaderName::from_bytes` succeeds on the name's bytes;
/// it refuses an empty name.
#[verifier::external_body]
fn header_name_valid(name: &str) -> (r: bool)
    ensures
        r == header_name_accepted(name@),
        name@.len() == 0 ==> !r,
{
    reqwest::header::HeaderName::from_bytes(name.as_bytes()).is_ok()
}

/// `reqwest::header::HeaderValue::from_str` succeeds: every byte of the
/// value is a tab or at least 32 and not 127.
#[verifier::external_body]
fn header_value_valid(value: &str) -> (r: bool)
    ensures
        r == header_value_accepted(value@),
{
    reqwest::header::HeaderValue::from_str(value).is_ok()
}

/// The headers of `m` whose name and value the HTTP library accepts.
pub open spec fn accepted_headers(m: Map<Seq<char>, Seq<char>>) -> Map<Seq<char>, Seq<char>> {
    m.restrict(
        m.dom().filter(|k: Seq<char>| header_name_accepted(k) && header_value_accepted(m[k])),
    )
}

/// The pairs of `ps` whose name and value the HTTP library accepts, in
/// order.
pub open spec fn accepted_pairs(ps: Seq<(String, String)>) -> Seq<(String, String)>
    decreases ps.len(),
{
    if ps.len() == 0 {
        Seq::empty()
    } else {
        let rest = accepted_pairs(ps.drop_last());
        let l = ps.last();
        if header_name_accepted(l.0@) && header_value_accepted(l.1@) {
            rest.push(l)
        } else {
            rest
        }
    }
}

proof fn lemma_accepted_pairs(ps: Seq<(String, String)>)
    requires
        names_distinct(ps),
    ensures
        names_distinct(accepted_pairs(ps)),
        pairs_map(accepted_pairs(ps)) == accepted_headers(pairs_map(ps)),
        pairs_map(accepted_pairs(ps)).dom().subset_of(pairs_map(ps).dom()),
    decreases ps.len(),
{
    if ps.len() > 0 {
        let p = ps.drop_last();
        let l = ps.last();
        lemma_accepted_pairs(p);
        let rest = accepted_pairs(p);
        lemma_pairs_map_domain(p, l.0@);
        if pairs_map(p).contains_key(l.0@) {
            let i = choose|i: int| 0 <= i < p.len() && p[i].0@ == l.0@;
            assert(ps[i].0@ == ps[ps.len() - 1].0@);
        }
        if header_name_accepted(l.0@) && header_value_accepted(l.1@) {
            assert forall|i: int, j: int|
                0 <= i < j < rest.push(l).len() implies rest.push(l)[i].0@ != rest.push(l)[j].0@ by {
                if j == rest.len() {
                    lemma_pairs_map_domain(rest, rest[i].0@);
                    assert(pairs_map(rest).contains_key(rest[i].0@));
                    assert(rest.push(l)[j] == l);
                    assert(rest.push(l)[i] == rest[i]);
                } else {
                    assert(rest.push(l)[i] == rest[i]);
                    assert(rest.push(l)[j] == rest[j]);
                }
            }
        }
        let m = pairs_map(p);
        assert(pairs_map(ps) == m.insert(l.0@, l.1@));
        if header_name_accepted(l.0@) && header_value_accepted(l.1@) {
            assert(rest.push(l).drop_last() =~= rest);
            assert(pairs_map(rest.push(l)) == pairs_map(rest).insert(l.0@, l.1@));
        }
        let big = accepted_headers(m.insert(l.0@, l.1@));
        assert forall|k: Seq<char>| #[trigger] pairs_map(accepted_pairs(ps)).contains_key(k) <==> big.contains_key(k) by {
            if k != l.0@ {
                assert(m.insert(l.0@, l.1@)[k] == m[k]);
            }
        }
        assert forall|k: Seq<char>| #[trigger] pairs_map(accepted_pairs(ps)).contains_key(k) implies pairs_map(accepted_pairs(ps))[k] == big[k] by {
            if k != l.0@ {
                assert(m.insert(l.0@, l.1@)[k] == m[k]);
            }
        }
        assert(pairs_map(accepted_pairs(ps)) =~= big);
    }
}

/// The headers of a request that can be sent: those whose name and value
/// the HTTP library accepts, each once with its value.
pub fn sendable_headers(headers: &HeaderMap) -> (r: Vec<(String, String)>)
    ensures
        names_distinct(r@),
        pairs_map(r@) == accepted_headers(headers@),
{
    let pairs = headers.to_pairs();
    let ghost all = pairs@;
    let mut r: Vec<(String, String)> = Vec::new();
    let mut i: usize = 0;
    while i < pairs.len()
        invariant
            i <= all.len(),
            all == pairs@,
            names_distinct(all),
            r@ == accepted_pairs(all.subrange(0, i as int)),
        decreases all.len() - i,
    {
        assert(all.subrange(0, i + 1).drop_last() =~= all.subrange(0, i as int));
        assert(all.subrange(0, i + 1).last() == all[i as int]);
        let (name, value) = &pairs[i];
        if header_name_valid(name.as_str()) && header_value_valid(value.as_str()) {
            r.push((name.clone(), value.clone()));
        }
        i = i + 1;
    }
    assert(all.subrange(0, i as int) =~= all);
    proof {
        lemma_accepted_pairs(all);
    }
    r
}

} // verus!
