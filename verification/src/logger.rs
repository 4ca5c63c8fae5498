//! The request log: what an entry keeps of a request, and the reading of
//! the log (recent entries, search, statistics). The log file itself is
//! read and written by the caller, one entry per line.
use vstd::prelude::*;

use crate::headers::{pairs_map, HeaderMap, TextMap};
use crate::http_client::{HttpRequestBuilder, HttpResponseInfo};
use crate::network::{decode_utf8_lossy, lowercase, to_lowercase, utf8_lossy, HttpRequest};
use crate::text::{chars_contain, chars_of, contains, push_str, string_of_all};

verus! {

/// What the log keeps of a request.
pub struct HttpRequestInfo {
    pub method: String,
    pub url: String,
    pub headers: HeaderMap,
    /// The body, cut after its first 1000 characters.
    pub body_preview: String,
    pub source_ip: String,
    pub source_port: u16,
}

/// One line of the request log.
pub struct RequestLogEntry {
    /// When the entry was written, in milliseconds since the Unix epoch.
    pub timestamp: i64,
    pub request: HttpRequestInfo,
    pub response: Option<HttpResponseInfo>,
    pub source: String,
}

/// Counts over the request log.
pub struct RequestStats {
    pub total_requests: usize,
    pub monitord_requests: usize,
    pub manual_requests: usize,
    pub replay_requests: usize,
    pub successful_requests: usize,
    pub failed_requests: usize,
    pub methods: TextMap<usize>,
    pub total_response_time: u64,
    pub average_response_time: u64,
}

/// Number of characters of a body that the log keeps.
pub open spec fn preview_limit() -> nat {
    1000
}

// ---------------------------------------------------------------------
// Previews
// ---------------------------------------------------------------------

/// The preview of a text body: its first 1000 characters followed by
/// `"..."` when it is longer, else all of it.
pub open spec fn text_preview(s: Seq<char>) -> Seq<char> {
    if s.len() > preview_limit() {
        s.subrange(0, preview_limit() as int) + "..."@
    } else {
        s
    }
}

/// The preview of a byte body: its text, decoded as lossy UTF-8, previewed
/// like a text body.
pub open spec fn byte_preview(body: Seq<u8>) -> Seq<char> {
    text_preview(utf8_lossy(body))
}

/// The preview of a text body (see `text_preview`).
pub fn preview_text(body: &str) -> (r: String)
    ensures
        r@ == text_preview(body@),
{
    let v = chars_of(body);
    if v.len() > 1000 {
        let mut out: Vec<char> = Vec::new();
        let mut k: usize = 0;
        while k < 1000
            invariant
                k <= 1000 < v@.len(),
                out@ == v@.subrange(0, k as int),
            decreases 1000 - k,
        {
            out.push(v[k]);
            assert(v@.subrange(0, k + 1) =~= v@.subrange(0, k as int).push(v@[k as int]));
            k = k + 1;
        }
        push_str(&mut out, "...");
        string_of_all(&out)
    } else {
        string_of_all(&v)
    }
}

/// The preview of a byte body (see `byte_preview`).
pub fn preview_bytes(body: &Vec<u8>) -> (r: String)
    ensures
        r@ == byte_preview(body@),
{
    let text = decode_utf8_lossy(body.as_slice());
    preview_text(text.as_str())
}

impl HttpRequestInfo {
    /// What the log keeps of a captured request.
    pub fn from(req: &HttpRequest) -> (r: HttpRequestInfo)
        ensures
            r.method == req.method,
            r.url == req.url,
            r.headers@ == req.headers@,
            r.body_preview@ == byte_preview(req.body@),
            r.source_ip == req.source_ip,
            r.source_port == req.source_port,
    {
        HttpRequestInfo {
            method: req.method.clone(),
            url: req.url.clone(),
            headers: req.headers.duplicate(),
            body_preview: preview_bytes(&req.body),
            source_ip: req.source_ip.clone(),
            source_port: req.source_port,
        }
    }

    /// What the log keeps of a request sent by hand: its source is
    /// `"manual"`, port 0.
    pub fn for_manual(method: &str, url: &str, headers: HeaderMap, body: &str) -> (r:
        HttpRequestInfo)
        ensures
            r.method@ == method@,
            r.url@ == url@,
            r.headers@ == headers@,
            r.body_preview@ == text_preview(body@),
            r.source_ip@ == "manual"@,
            r.source_port == 0,
    {
        HttpRequestInfo {
            method: method.to_owned(),
            url: url.to_owned(),
            headers,
            body_preview: preview_text(body),
            source_ip: "manual".to_owned(),
            source_port: 0,
        }
    }

    /// What the log keeps of a replayed request: its source is `"replay"`,
    /// port 0, and a request without body has an empty preview.
    pub fn for_replay(request: &HttpRequestBuilder) -> (r: HttpRequestInfo)
        ensures
            r.method == request.method,
            r.url == request.url,
            r.headers@ == request.headers@,
            r.body_preview@ == match request.body {
                Some(b) => text_preview(b@),
                None => Seq::empty(),
            },
            r.source_ip@ == "replay"@,
            r.source_port == 0,
    {
        let body_preview = match &request.body {
            Some(b) => preview_text(b.as_str()),
            None => String::new(),
        };
        HttpRequestInfo {
            method: request.method.clone(),
            url: request.url.clone(),
            headers: request.headers.duplicate(),
            body_preview,
            source_ip: "replay".to_owned(),
            source_port: 0,
        }
    }
}

// ---------------------------------------------------------------------
// Reading the log
// ---------------------------------------------------------------------

/// The entries among the lines of the log, in order (a line that is not an
/// entry is `None`).
pub open spec fn entries_of(lines: Seq<Option<RequestLogEntry>>) -> Seq<RequestLogEntry>
    decreases lines.len(),
{
    if lines.len() == 0 {
        Seq::empty()
    } else {
        match lines[0] {
            Some(e) => seq![e] + entries_of(lines.drop_first()),
            None => entries_of(lines.drop_first()),
        }
    }
}

/// The entries among the last `limit` lines of the log, in order.
pub open spec fn recent_entries_of(lines: Seq<Option<RequestLogEntry>>, limit: nat) -> Seq<
    RequestLogEntry,
> {
    let start = if lines.len() > limit {
        lines.len() - limit
    } else {
        0
    };
    entries_of(lines.subrange(start, lines.len() as int))
}

proof fn lemma_entries_of_prepend(lines: Seq<Option<RequestLogEntry>>, i: int)
    requires
        0 < i <= lines.len(),
    ensures
        entries_of(lines.subrange(i - 1, lines.len() as int)) == match lines[i - 1] {
            Some(e) => seq![e] + entries_of(lines.subrange(i, lines.len() as int)),
            None => entries_of(lines.subrange(i, lines.len() as int)),
        },
{
    assert(lines.subrange(i - 1, lines.len() as int).drop_first() =~= lines.subrange(
        i,
        lines.len() as int,
    ));
}

/// The entries among the last `limit` lines of the log, in order (see
/// `recent_entries_of`).
pub fn recent_entries(lines: Vec<Option<RequestLogEntry>>, limit: usize) -> (r: Vec<
    RequestLogEntry,
>)
    ensures
        r@ == recent_entries_of(lines@, limit as nat),
{
    let ghost all = lines@;
    let n = lines.len();
    let start = if n > limit {
        n - limit
    } else {
        0
    };
    let mut rest = lines;
    let mut reversed: Vec<RequestLogEntry> = Vec::new();
    assert(all.subrange(n as int, n as int).len() == 0);
    while rest.len() > start
        invariant
            start <= rest@.len() <= n == all.len(),
            rest@ == all.subrange(0, rest@.len() as int),
            reversed@.reverse() == entries_of(all.subrange(rest@.len() as int, n as int)),
        decreases rest@.len(),
    {
        let i = rest.len();
        proof {
            lemma_entries_of_prepend(all, i as int);
        }
        match rest.pop() {
            Some(Some(e)) => {
                let ghost old_rev = reversed@;
                reversed.push(e);
                assert(reversed@.reverse() =~= seq![e] + old_rev.reverse());
            },
            _ => {},
        }
    }
    let mut r: Vec<RequestLogEntry> = Vec::new();
    let ghost target = reversed@.reverse();
    while reversed.len() > 0
        invariant
            target == r@ + reversed@.reverse(),
        decreases reversed@.len(),
    {
        let ghost before = reversed@;
        match reversed.pop() {
            Some(e) => {
                r.push(e);
                assert(before.reverse() =~= seq![e] + reversed@.reverse());
            },
            None => {},
        }
    }
    assert(r@ =~= target);
    r
}

/// The texts of a header map's values.
pub open spec fn header_values_contain(m: Map<Seq<char>, Seq<char>>, q: Seq<char>) -> bool {
    exists|k: Seq<char>| m.contains_key(k) && contains(lowercase(m[k]), q)
}

/// An entry matches a query when, compared in lowercase, the query occurs in
/// its URL, method, body preview or one of its header values.
pub open spec fn entry_matches(e: RequestLogEntry, query: Seq<char>) -> bool {
    let q = lowercase(query);
    ||| contains(lowercase(e.request.url@), q)
    ||| contains(lowercase(e.request.method@), q)
    ||| contains(lowercase(e.request.body_preview@), q)
    ||| header_values_contain(e.request.headers@, q)
}

/// The entries of the log that match a query, in order.
pub open spec fn matching_entries_of(lines: Seq<Option<RequestLogEntry>>, query: Seq<char>) -> Seq<
    RequestLogEntry,
>
    decreases lines.len(),
{
    if lines.len() == 0 {
        Seq::empty()
    } else {
        match lines[0] {
            Some(e) => if entry_matches(e, query) {
                seq![e] + matching_entries_of(lines.drop_first(), query)
            } else {
                matching_entries_of(lines.drop_first(), query)
            },
            None => matching_entries_of(lines.drop_first(), query),
        }
    }
}

/// The last `limit` matching entries, in order.
pub open spec fn search_result(lines: Seq<Option<RequestLogEntry>>, query: Seq<char>, limit: nat) -> Seq<
    RequestLogEntry,
> {
    let m = matching_entries_of(lines, query);
    if m.len() > limit {
        m.subrange(m.len() - limit, m.len() as int)
    } else {
        m
    }
}

proof fn lemma_matching_split(lines: Seq<Option<RequestLogEntry>>, q: Seq<char>, i: int)
    requires
        0 <= i <= lines.len(),
    ensures
        matching_entries_of(lines, q) == matching_entries_of(lines.subrange(0, i), q)
            + matching_entries_of(lines.subrange(i, lines.len() as int), q),
    decreases i,
{
    if i == 0 {
        assert(lines.subrange(0, 0).len() == 0);
        assert(lines.subrange(0, lines.len() as int) =~= lines);
        assert(matching_entries_of(lines.subrange(0, 0), q) =~= Seq::empty());
        assert(Seq::<RequestLogEntry>::empty() + matching_entries_of(lines, q) =~= matching_entries_of(lines, q));
    } else {
        let t = lines.drop_first();
        lemma_matching_split(t, q, i - 1);
        assert(lines.subrange(0, i).drop_first() =~= t.subrange(0, i - 1));
        assert(t.subrange(i - 1, t.len() as int) =~= lines.subrange(i, lines.len() as int));
        assert(lines.subrange(0, i)[0] == lines[0]);
        match lines[0] {
            Some(e) => {
                if entry_matches(e, q) {
                    assert(matching_entries_of(lines, q) =~= seq![e] + matching_entries_of(t, q));
                    assert(matching_entries_of(lines.subrange(0, i), q) =~= seq![e]
                        + matching_entries_of(t.subrange(0, i - 1), q));
                    assert((seq![e] + matching_entries_of(t.subrange(0, i - 1), q))
                        + matching_entries_of(lines.subrange(i, lines.len() as int), q) =~= seq![e] + (
                    matching_entries_of(t.subrange(0, i - 1), q) + matching_entries_of(
                        lines.subrange(i, lines.len() as int),
                        q,
                    )));
                }
            },
            None => {},
        }
    }
}

proof fn lemma_matching_prepend(lines: Seq<Option<RequestLogEntry>>, q: Seq<char>, i: int)
    requires
        0 < i <= lines.len(),
    ensures
        matching_entries_of(lines.subrange(i - 1, lines.len() as int), q) == match lines[i - 1] {
            Some(e) => if entry_matches(e, q) {
                seq![e] + matching_entries_of(lines.subrange(i, lines.len() as int), q)
            } else {
                matching_entries_of(lines.subrange(i, lines.len() as int), q)
            },
            None => matching_entries_of(lines.subrange(i, lines.len() as int), q),
        },
{
    assert(lines.subrange(i - 1, lines.len() as int).drop_first() =~= lines.subrange(
        i,
        lines.len() as int,
    ));
}

/// Whether `q` occurs in the lowercase form of `s`.
fn lowercase_contains(s: &String, q: &Vec<char>) -> (r: bool)
    ensures
        r == contains(lowercase(s@), q@),
{
    let l = to_lowercase(s.as_str());
    let lc = chars_of(l.as_str());
    chars_contain(&lc, q)
}

/// Whether an entry matches a lowercase query (see `entry_matches`).
fn entry_matches_exec(e: &RequestLogEntry, q: &Vec<char>, query: &str) -> (r: bool)
    requires
        q@ == lowercase(query@),
    ensures
        r == entry_matches(*e, query@),
{
    if lowercase_contains(&e.request.url, q) || lowercase_contains(&e.request.method, q)
        || lowercase_contains(&e.request.body_preview, q) {
        return true;
    }
    let pairs = e.request.headers.to_pairs();
    let ghost m = e.request.headers@;
    let mut i: usize = 0;
    while i < pairs.len()
        invariant
            i <= pairs@.len(),
            crate::headers::names_distinct(pairs@),
            pairs_map(pairs@) == m,
            m == e.request.headers@,
            q@ == lowercase(query@),
            forall|j: int| 0 <= j < i ==> !contains(lowercase(#[trigger] pairs@[j].1@), q@),
        decreases pairs@.len() - i,
    {
        if lowercase_contains(&pairs[i].1, q) {
            proof {
                lemma_pairs_value_of(pairs@, i as int);
                assert(m.contains_key(pairs@[i as int].0@) && contains(
                    lowercase(m[pairs@[i as int].0@]),
                    q@,
                ));
            }
            return true;
        }
        i = i + 1;
    }
    proof {
        if header_values_contain(m, q@) {
            let k = choose|k: Seq<char>| m.contains_key(k) && contains(lowercase(m[k]), q@);
            let j = lemma_pairs_key_index(pairs@, k);
            lemma_pairs_value_of(pairs@, j);
        }
    }
    false
}

proof fn lemma_pairs_value_of(s: Seq<(String, String)>, i: int)
    requires
        crate::headers::names_distinct(s),
        0 <= i < s.len(),
    ensures
        pairs_map(s).contains_key(s[i].0@),
        pairs_map(s)[s[i].0@] == s[i].1@,
    decreases s.len(),
{
    if i < s.len() - 1 {
        lemma_pairs_value_of(s.drop_last(), i);
    }
}

proof fn lemma_pairs_key_index(s: Seq<(String, String)>, k: Seq<char>) -> (i: int)
    requires
        pairs_map(s).contains_key(k),
    ensures
        0 <= i < s.len(),
        s[i].0@ == k,
    decreases s.len(),
{
    if s.last().0@ == k {
        (s.len() - 1) as int
    } else {
        lemma_pairs_key_index(s.drop_last(), k)
    }
}

/// The last `limit` entries that match a query, in order (see
/// `search_result`).
pub fn matching_entries(lines: Vec<Option<RequestLogEntry>>, query: &str, limit: usize) -> (r: Vec<
    RequestLogEntry,
>)
    ensures
        r@ == search_result(lines@, query@, limit as nat),
{
    let ghost all = lines@;
    let n = lines.len();
    let lq = to_lowercase(query);
    let q = chars_of(lq.as_str());
    let mut rest = lines;
    let mut reversed: Vec<RequestLogEntry> = Vec::new();
    assert(all.subrange(n as int, n as int).len() == 0);
    while rest.len() > 0 && reversed.len() < limit
        invariant
            rest@.len() <= n == all.len(),
            rest@ == all.subrange(0, rest@.len() as int),
            reversed@.reverse() == matching_entries_of(all.subrange(rest@.len() as int, n as int), query@),
            reversed@.len() <= limit,
            q@ == lowercase(query@),
        decreases rest@.len(),
    {
        let i = rest.len();
        proof {
            lemma_matching_prepend(all, query@, i as int);
        }
        match rest.pop() {
            Some(Some(e)) => {
                if entry_matches_exec(&e, &q, query) {
                    let ghost old_rev = reversed@;
                    reversed.push(e);
                    assert(reversed@.reverse() =~= seq![e] + old_rev.reverse());
                }
            },
            _ => {},
        }
    }
    proof {
        lemma_matching_split(all, query@, rest@.len() as int);
        let m = matching_entries_of(all, query@);
        let tail = matching_entries_of(all.subrange(rest@.len() as int, n as int), query@);
        let head = matching_entries_of(all.subrange(0, rest@.len() as int), query@);
        assert(m == head + tail);
        if rest@.len() == 0 {
            assert(head =~= Seq::<RequestLogEntry>::empty());
            assert(m =~= tail);
        }
        if m.len() > limit {
            assert(tail =~= m.subrange(m.len() - limit, m.len() as int));
        }
    }
    let mut r: Vec<RequestLogEntry> = Vec::new();
    let ghost target = reversed@.reverse();
    while reversed.len() > 0
        invariant
            target == r@ + reversed@.reverse(),
        decreases reversed@.len(),
    {
        let ghost before = reversed@;
        match reversed.pop() {
            Some(e) => {
                r.push(e);
                assert(before.reverse() =~= seq![e] + reversed@.reverse());
            },
            None => {},
        }
    }
    assert(r@ =~= target);
    r
}

// ---------------------------------------------------------------------
// Statistics
// ---------------------------------------------------------------------

/// Number of entries written by `source`.
pub open spec fn source_count(es: Seq<RequestLogEntry>, source: Seq<char>) -> nat
    decreases es.len(),
{
    if es.len() == 0 {
        0
    } else {
        source_count(es.drop_last(), source) + (if es.last().source@ == source {
            1nat
        } else {
            0nat
        })
    }
}

/// The entry's response has a 2xx status.
pub open spec fn succeeded(e: RequestLogEntry) -> bool {
    e.response matches Some(r) && 200 <= r.status < 300
}

/// The entry's response has a status of 400 or more.
pub open spec fn failed(e: RequestLogEntry) -> bool {
    e.response matches Some(r) && r.status >= 400
}

/// Number of entries that satisfy `succeeded` (when `ok`) or `failed`.
pub open spec fn outcome_count(es: Seq<RequestLogEntry>, ok: bool) -> nat
    decreases es.len(),
{
    if es.len() == 0 {
        0
    } else {
        outcome_count(es.drop_last(), ok) + (if (ok && succeeded(es.last())) || (!ok && failed(
            es.last(),
        )) {
            1nat
        } else {
            0nat
        })
    }
}

/// Sum of the response times of the entries that have a response.
pub open spec fn response_time_total(es: Seq<RequestLogEntry>) -> nat
    decreases es.len(),
{
    if es.len() == 0 {
        0
    } else {
        response_time_total(es.drop_last()) + match es.last().response {
            Some(r) => r.response_time_ms as nat,
            None => 0nat,
        }
    }
}

/// Number of entries per request method.
pub open spec fn method_counts(es: Seq<RequestLogEntry>) -> Map<Seq<char>, usize>
    decreases es.len(),
{
    if es.len() == 0 {
        Map::empty()
    } else {
        let m = method_counts(es.drop_last());
        let k = es.last().request.method@;
        m.insert(
            k,
            if m.contains_key(k) {
                (m[k] + 1) as usize
            } else {
                1usize
            },
        )
    }
}

proof fn lemma_method_counts_bound(es: Seq<RequestLogEntry>, k: Seq<char>)
    ensures
        method_counts(es).contains_key(k) ==> method_counts(es)[k] <= es.len(),
    decreases es.len(),
{
    if es.len() > 0 {
        lemma_method_counts_bound(es.drop_last(), k);
    }
}

proof fn lemma_entries_of_push(lines: Seq<Option<RequestLogEntry>>, x: Option<RequestLogEntry>)
    ensures
        entries_of(lines.push(x)) == match x {
            Some(e) => entries_of(lines).push(e),
            None => entries_of(lines),
        },
    decreases lines.len(),
{
    if lines.len() == 0 {
        assert(lines.push(x).drop_first() =~= lines);
        assert(entries_of(lines) =~= Seq::<RequestLogEntry>::empty());
        match x {
            Some(e) => {
                assert(seq![e] + Seq::<RequestLogEntry>::empty() =~= Seq::<RequestLogEntry>::empty().push(e));
            },
            None => {},
        }
    } else {
        assert(lines.push(x).drop_first() =~= lines.drop_first().push(x));
        lemma_entries_of_push(lines.drop_first(), x);
        match lines[0] {
            Some(e0) => {
                match x {
                    Some(e) => {
                        assert(seq![e0] + entries_of(lines.drop_first()).push(e) =~= (seq![e0]
                            + entries_of(lines.drop_first())).push(e));
                    },
                    None => {},
                }
            },
            None => {},
        }
    }
}

proof fn lemma_response_time_prefix(es: Seq<RequestLogEntry>, i: int)
    requires
        0 <= i <= es.len(),
    ensures
        response_time_total(es.subrange(0, i)) <= response_time_total(es),
    decreases es.len() - i,
{
    if i < es.len() {
        lemma_response_time_prefix(es, i + 1);
        assert(es.subrange(0, i + 1).drop_last() =~= es.subrange(0, i));
    } else {
        assert(es.subrange(0, i) =~= es);
    }
}

/// The statistics of the log whose lines are `lines` (lines that are not
/// entries are skipped). The response times must sum to a `u64`.
pub fn request_stats(lines: &Vec<Option<RequestLogEntry>>) -> (r: RequestStats)
    requires
        response_time_total(entries_of(lines@)) <= u64::MAX,
    ensures
        ({
            let es = entries_of(lines@);
            &&& r.total_requests == es.len()
            &&& r.monitord_requests == source_count(es, "monitored"@)
            &&& r.manual_requests == source_count(es, "manual"@)
            &&& r.replay_requests == source_count(es, "replay"@)
            &&& r.successful_requests == outcome_count(es, true)
            &&& r.failed_requests == outcome_count(es, false)
            &&& r.methods@ == method_counts(es)
            &&& r.total_response_time == response_time_total(es)
            &&& r.average_response_time == if es.len() > 0 {
                response_time_total(es) / es.len()
            } else {
                0
            }
        }),
{
    let ghost all = lines@;
    let ghost es_all = entries_of(all);
    let mut total: usize = 0;
    let mut monitord: usize = 0;
    let mut manual: usize = 0;
    let mut replay: usize = 0;
    let mut successful: usize = 0;
    let mut failed_count: usize = 0;
    let mut methods: TextMap<usize> = TextMap::new();
    let mut time_total: u64 = 0;
    let monitord_name = "monitored".to_owned();
    let manual_name = "manual".to_owned();
    let replay_name = "replay".to_owned();
    let mut i: usize = 0;
    assert(all.subrange(0, 0) =~= Seq::<Option<RequestLogEntry>>::empty());
    assert(entries_of(all.subrange(0, 0)) =~= Seq::<RequestLogEntry>::empty());
    while i < lines.len()
        invariant
            i <= all.len(),
            all == lines@,
            es_all == entries_of(all),
            monitord_name@ == "monitored"@,
            manual_name@ == "manual"@,
            replay_name@ == "replay"@,
            response_time_total(es_all) <= u64::MAX,
            ({
                let es = entries_of(all.subrange(0, i as int));
                &&& es.len() <= i
                &&& es == es_all.subrange(0, es.len() as int)
                &&& total == es.len()
                &&& monitord == source_count(es, "monitored"@)
                &&& manual == source_count(es, "manual"@)
                &&& replay == source_count(es, "replay"@)
                &&& successful == outcome_count(es, true)
                &&& failed_count == outcome_count(es, false)
                &&& methods@ == method_counts(es)
                &&& time_total == response_time_total(es)
                &&& monitord <= es.len() && manual <= es.len() && replay <= es.len()
                &&& successful <= es.len() && failed_count <= es.len()
            }),
        decreases all.len() - i,
    {
        let ghost es = entries_of(all.subrange(0, i as int));
        proof {
            assert(all.subrange(0, i + 1) =~= all.subrange(0, i as int).push(all[i as int]));
            lemma_entries_of_push(all.subrange(0, i as int), all[i as int]);
            lemma_entries_of_push_prefix(all, i as int);
        }
        proof {
            reveal_strlit("monitored");
            reveal_strlit("manual");
            reveal_strlit("replay");
            assert("monitored"@.len() != "manual"@.len());
            assert("monitored"@.len() != "replay"@.len());
            assert("manual"@[0] != "replay"@[0]);
            assert("monitored"@ != "manual"@);
            assert("monitored"@ != "replay"@);
            assert("manual"@ != "replay"@);
        }
        match &lines[i] {
            Some(e) => {
                let ghost es2 = es.push(*e);
                assert(entries_of(all.subrange(0, i + 1)) == es2);
                assert(es2.drop_last() =~= es);
                proof {
                    lemma_response_time_prefix(es_all, es2.len() as int);
                    lemma_method_counts_bound(es, e.request.method@);
                }
                total = total + 1;
                if e.source == monitord_name {
                    monitord = monitord + 1;
                } else if e.source == manual_name {
                    manual = manual + 1;
                } else if e.source == replay_name {
                    replay = replay + 1;
                }
                methods.increment(e.request.method.clone());
                match &e.response {
                    Some(resp) => {
                        if resp.status >= 200 && resp.status < 300 {
                            successful = successful + 1;
                        } else if resp.status >= 400 {
                            failed_count = failed_count + 1;
                        }
                        time_total = time_total + resp.response_time_ms;
                    },
                    None => {},
                }
            },
            None => {
                assert(entries_of(all.subrange(0, i + 1)) == es);
            },
        }
        i = i + 1;
    }
    assert(all.subrange(0, i as int) =~= all);
    let average = if total > 0 {
        time_total / (total as u64)
    } else {
        0
    };
    RequestStats {
        total_requests: total,
        monitord_requests: monitord,
        manual_requests: manual,
        replay_requests: replay,
        successful_requests: successful,
        failed_requests: failed_count,
        methods,
        total_response_time: time_total,
        average_response_time: average,
    }
}

/// The entries of a prefix of the lines are a prefix of the entries.
proof fn lemma_entries_of_push_prefix(lines: Seq<Option<RequestLogEntry>>, i: int)
    requires
        0 <= i < lines.len(),
    ensures
        entries_of(lines.subrange(0, i + 1)) == entries_of(lines).subrange(
            0,
            entries_of(lines.subrange(0, i + 1)).len() as int,
        ),
        entries_of(lines.subrange(0, i)).len() <= i,
        entries_of(lines.subrange(0, i + 1)).len() <= entries_of(lines).len(),
{
    lemma_entries_of_split(lines, i + 1);
    lemma_entries_of_len(lines.subrange(0, i));
}

proof fn lemma_entries_of_len(lines: Seq<Option<RequestLogEntry>>)
    ensures
        entries_of(lines).len() <= lines.len(),
    decreases lines.len(),
{
    if lines.len() > 0 {
        lemma_entries_of_len(lines.drop_first());
    }
}

proof fn lemma_entries_of_split(lines: Seq<Option<RequestLogEntry>>, i: int)
    requires
        0 <= i <= lines.len(),
    ensures
        entries_of(lines) == entries_of(lines.subrange(0, i)) + entries_of(
            lines.subrange(i, lines.len() as int),
        ),
    decreases i,
{
    if i == 0 {
        assert(lines.subrange(0, lines.len() as int) =~= lines);
        assert(entries_of(lines.subrange(0, 0)) =~= Seq::<RequestLogEntry>::empty());
        assert(Seq::<RequestLogEntry>::empty() + entries_of(lines) =~= entries_of(lines));
    } else {
        let t = lines.drop_first();
        lemma_entries_of_split(t, i - 1);
        assert(lines.subrange(0, i).drop_first() =~= t.subrange(0, i - 1));
        assert(t.subrange(i - 1, t.len() as int) =~= lines.subrange(i, lines.len() as int));
        assert(lines.subrange(0, i)[0] == lines[0]);
        match lines[0] {
            Some(e) => {
                assert((seq![e] + entries_of(t.subrange(0, i - 1))) + entries_of(
                    lines.subrange(i, lines.len() as int),
                ) =~= seq![e] + (entries_of(t.subrange(0, i - 1)) + entries_of(
                    lines.subrange(i, lines.len() as int),
                )));
            },
            None => {},
        }
    }
}


// ---------------------------------------------------------------------
// Laws
// ---------------------------------------------------------------------

proof fn lemma_matching_entries_match(lines: Seq<Option<RequestLogEntry>>, query: Seq<char>)
    ensures
        forall|i: int|
            0 <= i < matching_entries_of(lines, query).len() ==> entry_matches(
                #[trigger] matching_entries_of(lines, query)[i],
                query,
            ),
    decreases lines.len(),
{
    if lines.len() > 0 {
        let rest = lines.drop_first();
        lemma_matching_entries_match(rest, query);
        let m = matching_entries_of(rest, query);
        match lines[0] {
            Some(e) => {
                if entry_matches(e, query) {
                    assert forall|i: int|
                        0 <= i < matching_entries_of(lines, query).len() implies entry_matches(
                        #[trigger] matching_entries_of(lines, query)[i],
                        query,
                    ) by {
                        if i > 0 {
                            assert(matching_entries_of(lines, query)[i] == m[i - 1]);
                        }
                    }
                }
            },
            None => {},
        }
    }
}

/// Showing recent logs never shows more entries than the limit asks for.
pub proof fn recent_entries_within_limit(lines: Seq<Option<RequestLogEntry>>, limit: nat)
    ensures
        recent_entries_of(lines, limit).len() <= limit,
{
    let start = if lines.len() > limit {
        lines.len() - limit
    } else {
        0
    };
    lemma_entries_of_len(lines.subrange(start, lines.len() as int));
}

/// A search gives at most `limit` entries, each of which matches the query,
/// and they are the latest matching entries of the log, in order.
pub proof fn search_results_match(lines: Seq<Option<RequestLogEntry>>, query: Seq<char>, limit: nat)
    ensures
        search_result(lines, query, limit).len() <= limit,
        forall|i: int|
            0 <= i < search_result(lines, query, limit).len() ==> entry_matches(
                #[trigger] search_result(lines, query, limit)[i],
                query,
            ),
        ({
            let m = matching_entries_of(lines, query);
            let r = search_result(lines, query, limit);
            r == m.subrange(m.len() - r.len(), m.len() as int)
        }),
{
    lemma_matching_entries_match(lines, query);
    let m = matching_entries_of(lines, query);
    let r = search_result(lines, query, limit);
    if m.len() > limit {
        assert forall|i: int| 0 <= i < r.len() implies entry_matches(#[trigger] r[i], query) by {
            assert(r[i] == m[m.len() - limit + i]);
        }
    } else {
        assert(m.subrange(0, m.len() as int) =~= m);
    }
}

proof fn lemma_outcomes_exclusive(es: Seq<RequestLogEntry>)
    ensures
        outcome_count(es, true) + outcome_count(es, false) <= es.len(),
    decreases es.len(),
{
    if es.len() > 0 {
        lemma_outcomes_exclusive(es.drop_last());
    }
}

proof fn lemma_sources_exclusive(es: Seq<RequestLogEntry>)
    ensures
        source_count(es, "monitored"@) + source_count(es, "manual"@) + source_count(es, "replay"@)
            <= es.len(),
    decreases es.len(),
{
    reveal_strlit("monitored");
    reveal_strlit("manual");
    reveal_strlit("replay");
    if es.len() > 0 {
        lemma_sources_exclusive(es.drop_last());
        assert("monitored"@ != "manual"@) by {
            assert("monitored"@[1] != "manual"@[1]);
        }
        assert("monitored"@ != "replay"@) by {
            assert("monitored"@.len() != "replay"@.len());
        }
        assert("manual"@ != "replay"@) by {
            assert("manual"@[0] != "replay"@[0]);
        }
    }
}

/// In the statistics no request is counted both as successful and as
/// failed, nor under two sources: each pair of counts, and the three source
/// counts together, stay within the total.
pub proof fn stats_counts_within_total(es: Seq<RequestLogEntry>)
    ensures
        outcome_count(es, true) + outcome_count(es, false) <= es.len(),
        source_count(es, "monitored"@) + source_count(es, "manual"@) + source_count(es, "replay"@)
            <= es.len(),
{
    lemma_outcomes_exclusive(es);
    lemma_sources_exclusive(es);
}

/// A body preview keeps the body's first characters, up to 1000 of them,
/// and adds nothing but a trailing `"..."` when it cut the body.
pub proof fn preview_keeps_the_first_characters(s: Seq<char>)
    ensures
        s.len() <= 1000 ==> text_preview(s) == s,
        s.len() > 1000 ==> text_preview(s).len() == 1003 && text_preview(s).subrange(0, 1000)
            == s.subrange(0, 1000),
{
    reveal_strlit("...");
    if s.len() > 1000 {
        assert(text_preview(s).subrange(0, 1000) =~= s.subrange(0, 1000));
    }
}

proof fn lemma_matching_contains(lines: Seq<Option<RequestLogEntry>>, query: Seq<char>, i: int)
    requires
        0 <= i < lines.len(),
        lines[i] matches Some(e) && entry_matches(e, query),
    ensures
        matching_entries_of(lines, query).contains(lines[i].unwrap()),
    decreases lines.len(),
{
    let e = lines[i].unwrap();
    let rest = lines.drop_first();
    if i == 0 {
        assert(matching_entries_of(lines, query)[0] == e);
    } else {
        assert(rest[i - 1] == lines[i]);
        lemma_matching_contains(rest, query, i - 1);
        let m = matching_entries_of(rest, query);
        let k = choose|k: int| 0 <= k < m.len() && m[k] == e;
        match lines[0] {
            Some(e0) => {
                if entry_matches(e0, query) {
                    assert((seq![e0] + m)[k + 1] == e);
                }
            },
            None => {},
        }
    }
}

/// A search looks in the URL, the method, the body preview and the header
/// values of each entry, ignoring case: an entry in which any of them
/// contains the query is among the matching entries, and a log of that one
/// entry gives it back for any positive limit.
pub proof fn search_looks_in_every_field(
    lines: Seq<Option<RequestLogEntry>>,
    query: Seq<char>,
    i: int,
    limit: nat,
)
    requires
        0 <= i < lines.len(),
        lines[i] is Some,
        ({
            let e = lines[i].unwrap();
            let q = lowercase(query);
            ||| contains(lowercase(e.request.url@), q)
            ||| contains(lowercase(e.request.method@), q)
            ||| contains(lowercase(e.request.body_preview@), q)
            ||| exists|k: Seq<char>|
                e.request.headers@.contains_key(k) && contains(lowercase(e.request.headers@[k]), q)
        }),
    ensures
        matching_entries_of(lines, query).contains(lines[i].unwrap()),
        limit >= 1 ==> search_result(seq![lines[i]], query, limit) == seq![lines[i].unwrap()],
{
    let e = lines[i].unwrap();
    assert(entry_matches(e, query));
    lemma_matching_contains(lines, query, i);
    let one = seq![lines[i]];
    assert(one.drop_first() =~= Seq::<Option<RequestLogEntry>>::empty());
    assert(matching_entries_of(one.drop_first(), query) == Seq::<RequestLogEntry>::empty());
    assert(one[0] == Some(e));
    assert(matching_entries_of(one, query) == seq![e] + Seq::<RequestLogEntry>::empty());
    assert(seq![e] + Seq::<RequestLogEntry>::empty() =~= seq![e]);
}

/// How an entry changes the success and failure counts: a response with a
/// 2xx status adds one success, a response with a status of 400 or more
/// (client and server errors alike) adds one failure, and anything else
/// (no response, 1xx, 3xx) adds neither.
pub proof fn outcome_counts_by_status(es: Seq<RequestLogEntry>, e: RequestLogEntry)
    ensures
        outcome_count(es.push(e), true) == outcome_count(es, true) + (if e.response matches Some(r)
            && 200 <= r.status < 300 {
            1int
        } else {
            0int
        }),
        outcome_count(es.push(e), false) == outcome_count(es, false) + (if e.response matches Some(r)
            && r.status >= 400 {
            1int
        } else {
            0int
        }),
{
    assert(es.push(e).drop_last() =~= es);
    assert(es.push(e).last() == e);
}

} // verus!
