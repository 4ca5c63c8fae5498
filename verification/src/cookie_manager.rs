//! The cookie store: cookies parsed from `Set-Cookie` headers, kept under
//! `domain:name` in a `DashMap`, and selected for the requests they apply
//! to.
use vstd::prelude::*;

use crate::headers::{lemma_pairs_map_domain, lemma_pairs_map_len, lemma_pairs_map_value, names_distinct,
    pairs_map};
use crate::text::{chars_of, contains, push_chars, push_str, range_equals, range_starts_with,
    starts_with, string_of, string_of_all};
use dashmap::DashMap;

verus! {

// ---------------------------------------------------------------------
// Types
// ---------------------------------------------------------------------

/// A stored cookie.
pub struct CookieEntry {
    pub name: String,
    pub value: String,
    pub domain: String,
    pub path: String,
    /// Expiry, in seconds since the Unix epoch.
    pub expires: Option<u64>,
    pub secure: bool,
    pub http_only: bool,
    pub same_site: Option<String>,
}

/// A cookie as plain values: name, value, domain, path, expiry, secure,
/// http-only, same-site.
pub type CookieView = (
    Seq<char>,
    Seq<char>,
    Seq<char>,
    Seq<char>,
    Option<u64>,
    bool,
    bool,
    Option<Seq<char>>,
);

impl View for CookieEntry {
    type V = CookieView;

    open spec fn view(&self) -> CookieView {
        (
            self.name@,
            self.value@,
            self.domain@,
            self.path@,
            self.expires,
            self.secure,
            self.http_only,
            match self.same_site {
                Some(s) => Some(s@),
                None => None,
            },
        )
    }
}

/// The `SameSite` attribute of a cookie.
pub enum SameSiteMode {
    Strict,
    Lax,
    /// `SameSite=None`: sent on cross-site requests too.
    CrossSite,
}

/// The parts of a URL that cookies are matched against.
pub struct RequestUrl {
    /// The URL as the `url` crate serialises it.
    pub serialization: String,
    pub scheme: String,
    /// The host when it is a domain name (not an IP address).
    pub domain: Option<String>,
    pub path: String,
}

/// The attributes of a `Set-Cookie` header as `cookie_store` parses them.
pub struct SetCookieAttributes {
    pub name: String,
    pub value: String,
    /// The `Domain` attribute, without a leading dot.
    pub domain: Option<String>,
    pub path: Option<String>,
    /// The `Expires` attribute, in seconds since the Unix epoch.
    pub expires: Option<i64>,
    pub secure: Option<bool>,
    pub http_only: Option<bool>,
    pub same_site: Option<SameSiteMode>,
}

/// Optional text as plain values.
pub open spec fn opt_text(s: Option<String>) -> Option<Seq<char>> {
    match s {
        Some(t) => Some(t@),
        None => None,
    }
}

// ---------------------------------------------------------------------
// Outside crates
// ---------------------------------------------------------------------

#[verifier::external_type_specification]
#[verifier::external_body]
#[verifier::reject_recursive_types(K)]
#[verifier::reject_recursive_types(V)]
#[verifier::reject_recursive_types(S)]
pub struct ExDashMap<K, V, S>(DashMap<K, V, S>);

/// The contents of an empty cookie map.
pub open spec fn no_cookies() -> Map<Seq<char>, CookieView> {
    Map::empty()
}

/// What a cookie map holds: each key with its cookie.
pub uninterp spec fn stored_cookies(m: DashMap<String, CookieEntry>) -> Map<Seq<char>, CookieView>;

/// `DashMap::new`: an empty map.
#[verifier::external_body]
fn store_new() -> (r: DashMap<String, CookieEntry>)
    ensures
        stored_cookies(r) == no_cookies(),
{
    DashMap::new()
}

/// `DashMap::insert`: the key now holds the cookie.
#[verifier::external_body]
fn store_insert(m: &mut DashMap<String, CookieEntry>, key: String, cookie: CookieEntry)
    ensures
        stored_cookies(*final(m)) == stored_cookies(*old(m)).insert(key@, cookie@),
{
    m.insert(key, cookie);
}

/// `DashMap::iter`: every key with a copy of its cookie, each key once, in
/// an order that the map does not fix.
#[verifier::external_body]
fn store_entries(m: &DashMap<String, CookieEntry>) -> (r: Vec<(String, CookieEntry)>)
    ensures
        names_distinct(r@),
        pairs_map(r@) == stored_cookies(*m),
{
    m.iter().map(|e| (e.key().clone(), copy_entry(e.value()))).collect()
}

/// `DashMap::retain` with `cookie_is_current`: the cookies that have not
/// expired at `now` stay.
#[verifier::external_body]
fn store_retain_current(m: &mut DashMap<String, CookieEntry>, now: u64)
    ensures
        stored_cookies(*final(m)) == unexpired_at(stored_cookies(*old(m)), now),
{
    m.retain(|_, c| cookie_is_current(c, now));
}

/// `DashMap::clear`: the map is empty.
#[verifier::external_body]
fn store_clear(m: &mut DashMap<String, CookieEntry>)
    ensures
        stored_cookies(*final(m)) == no_cookies(),
{
    m.clear();
}

/// What `url::Url::parse` makes of a text, as (serialisation, scheme,
/// domain, path).
pub uninterp spec fn parsed_url(s: Seq<char>) -> Option<
    (Seq<char>, Seq<char>, Option<Seq<char>>, Seq<char>),
>;

/// `url::Url::parse`, with the URL's serialisation, scheme, domain and
/// path.
#[verifier::external_body]
fn url_parts(s: &str) -> (r: Option<RequestUrl>)
    ensures
        r is Some <==> parsed_url(s@) is Some,
        r matches Some(u) ==> parsed_url(s@) == Some(
            (u.serialization@, u.scheme@, opt_text(u.domain), u.path@),
        ),
{
    match url::Url::parse(s) {
        Ok(u) => Some(
            RequestUrl {
                serialization: u.as_str().to_string(),
                scheme: u.scheme().to_string(),
                domain: u.domain().map(|d| d.to_string()),
                path: u.path().to_string(),
            },
        ),
        Err(_) => None,
    }
}

/// The parts of a URL text that cookies are matched against, or nothing
/// when the text is not a URL.
pub fn parse_url(s: &str) -> (r: Option<RequestUrl>)
    ensures
        r is Some <==> parsed_url(s@) is Some,
        r matches Some(u) ==> parsed_url(s@) == Some(
            (u.serialization@, u.scheme@, opt_text(u.domain), u.path@),
        ),
{
    url_parts(s)
}

/// The attributes as plain values: name, value, domain, path, expiry,
/// secure, http-only, same-site (0 strict, 1 lax, 2 none).
pub type SetCookieView = (
    Seq<char>,
    Seq<char>,
    Option<Seq<char>>,
    Option<Seq<char>>,
    Option<i64>,
    Option<bool>,
    Option<bool>,
    Option<int>,
);

/// The attributes as plain values.
pub open spec fn set_cookie_view(a: SetCookieAttributes) -> SetCookieView {
    (
        a.name@,
        a.value@,
        opt_text(a.domain),
        opt_text(a.path),
        a.expires,
        a.secure,
        a.http_only,
        match a.same_site {
            Some(SameSiteMode::Strict) => Some(0int),
            Some(SameSiteMode::Lax) => Some(1int),
            Some(SameSiteMode::CrossSite) => Some(2int),
            None => None,
        },
    )
}

/// What `cookie_store::Cookie::parse` makes of a `Set-Cookie` text
/// received from the URL with the given serialisation.
pub uninterp spec fn parsed_set_cookie(cookie: Seq<char>, url: Seq<char>) -> Option<SetCookieView>;

/// `cookie_store::Cookie::parse` of a `Set-Cookie` text received from
/// `url`, with the attributes of the cookie. The URL is rebuilt from its
/// serialisation.
#[verifier::external_body]
fn parse_set_cookie(cookie_str: &str, url: &RequestUrl) -> (r: Option<SetCookieAttributes>)
    ensures
        r is Some <==> parsed_set_cookie(cookie_str@, url.serialization@) is Some,
        r matches Some(a) ==> parsed_set_cookie(cookie_str@, url.serialization@) == Some(
            set_cookie_view(a),
        ),
{
    let u = url::Url::parse(url.serialization.as_str()).ok()?;
    let c = cookie_store::Cookie::parse(cookie_str, &u).ok()?;
    let same_site = c.same_site().map(|m| if m.is_strict() { SameSiteMode::Strict } else if m.is_lax() {
        SameSiteMode::Lax } else { SameSiteMode::CrossSite });
    Some(SetCookieAttributes {
        name: c.name().to_string(),
        value: c.value().to_string(),
        domain: c.domain().map(|d| d.to_string()),
        path: c.path().map(|p| p.to_string()),
        expires: c.expires_datetime().map(|t| t.unix_timestamp()),
        secure: c.secure(),
        http_only: c.http_only(),
        same_site,
    })
}

/// Seconds since the Unix epoch by the system clock, or nothing when the
/// clock is before it (`SystemTime::now`). Nothing is stated of the value.
#[verifier::external_body]
fn unix_time_secs() -> (r: Option<u64>) {
    match std::time::SystemTime::now().duration_since(std::time::UNIX_EPOCH) {
        Ok(d) => Some(d.as_secs()),
        Err(_) => None,
    }
}

// ---------------------------------------------------------------------
// Cookie rules
// ---------------------------------------------------------------------

/// A cookie has not expired at `now` (it may be sent at that second).
pub open spec fn cookie_current(c: CookieView, now: u64) -> bool {
    match c.4 {
        Some(e) => now <= e,
        None => true,
    }
}

/// The cookies of `m` that have not expired at `now`.
pub open spec fn unexpired_at(m: Map<Seq<char>, CookieView>, now: u64) -> Map<Seq<char>, CookieView> {
    m.restrict(m.dom().filter(|k: Seq<char>| cookie_current(m[k], now)))
}

/// Whether a cookie has not expired at `now`.
pub fn cookie_is_current(c: &CookieEntry, now: u64) -> (r: bool)
    ensures
        r == cookie_current(c@, now),
{
    match c.expires {
        Some(e) => now <= e,
        None => true,
    }
}

/// The key a cookie is stored under: its domain, a colon, its name.
pub open spec fn cookie_key(c: CookieView) -> Seq<char> {
    c.2 + ":"@ + c.0
}

/// The key a cookie is stored under.
pub fn key_of(c: &CookieEntry) -> (r: String)
    ensures
        r@ == cookie_key(c@),
{
    let mut v = chars_of(c.domain.as_str());
    push_str(&mut v, ":");
    push_str(&mut v, c.name.as_str());
    string_of_all(&v)
}

/// The name of a `SameSite` mode as `{:?}` writes it.
pub open spec fn same_site_name(m: int) -> Seq<char> {
    if m == 0 {
        "Strict"@
    } else if m == 1 {
        "Lax"@
    } else {
        "None"@
    }
}

/// The stored form of a cookie parsed from a response by host `host`: a
/// cookie without a domain takes the host, no path becomes `/`, an expiry
/// becomes its seconds as unsigned, absent flags are false.
pub open spec fn entry_of_attributes(a: SetCookieView, host: Seq<char>) -> CookieView {
    (
        a.0,
        a.1,
        match a.2 {
            Some(d) => d,
            None => host,
        },
        match a.3 {
            Some(p) => p,
            None => "/"@,
        },
        match a.4 {
            Some(t) => Some(t as u64),
            None => None,
        },
        match a.5 {
            Some(b) => b,
            None => false,
        },
        match a.6 {
            Some(b) => b,
            None => false,
        },
        match a.7 {
            Some(m) => Some(same_site_name(m)),
            None => None,
        },
    )
}

/// The stored form of a cookie parsed from a response by host `host` (see
/// `entry_of_attributes`).
pub fn entry_from_attributes(a: SetCookieAttributes, host: &str) -> (r: CookieEntry)
    ensures
        r@ == entry_of_attributes(set_cookie_view(a), host@),
{
    let domain = match a.domain {
        Some(d) => d,
        None => host.to_owned(),
    };
    let path = match a.path {
        Some(p) => p,
        None => "/".to_owned(),
    };
    let expires = match a.expires {
        Some(t) => Some(t as u64),
        None => None,
    };
    let same_site = match a.same_site {
        Some(SameSiteMode::Strict) => Some("Strict".to_owned()),
        Some(SameSiteMode::Lax) => Some("Lax".to_owned()),
        Some(SameSiteMode::CrossSite) => Some("None".to_owned()),
        None => None,
    };
    CookieEntry {
        name: a.name,
        value: a.value,
        domain,
        path,
        expires,
        secure: match a.secure {
            Some(b) => b,
            None => false,
        },
        http_only: match a.http_only {
            Some(b) => b,
            None => false,
        },
        same_site,
    }
}

/// `s` ends with `p`.
pub open spec fn ends_with(s: Seq<char>, p: Seq<char>) -> bool {
    p.len() <= s.len() && s.subrange(s.len() - p.len(), s.len() as int) == p
}

/// A cookie applies to a request for `domain` and `path`, over https or
/// not, at time `now`: the domain is the cookie's, or the cookie's starts
/// with a dot and the domain ends with what follows it; the path starts
/// with the cookie's; the cookie has not expired; a secure cookie needs
/// https.
pub open spec fn cookie_applies(
    c: CookieView,
    domain: Seq<char>,
    path: Seq<char>,
    is_secure: bool,
    now: u64,
) -> bool {
    &&& (domain == c.2 || (starts_with(c.2, "."@) && ends_with(
        domain,
        c.2.subrange(1, c.2.len() as int),
    )))
    &&& starts_with(path, c.3)
    &&& cookie_current(c, now)
    &&& (!c.5 || is_secure)
}

/// The `name=value` texts of the cookies in `es` that apply, in order.
pub open spec fn applicable_cookies(
    es: Seq<CookieView>,
    domain: Seq<char>,
    path: Seq<char>,
    is_secure: bool,
    now: u64,
) -> Seq<Seq<char>>
    decreases es.len(),
{
    if es.len() == 0 {
        Seq::empty()
    } else {
        let rest = applicable_cookies(es.drop_last(), domain, path, is_secure, now);
        let c = es.last();
        if cookie_applies(c, domain, path, is_secure, now) {
            rest.push(c.0 + "="@ + c.1)
        } else {
            rest
        }
    }
}

/// The views of the cookies of `(key, cookie)` pairs.
pub open spec fn cookie_views(ps: Seq<(String, CookieEntry)>) -> Seq<CookieView> {
    ps.map_values(|p: (String, CookieEntry)| p.1@)
}

/// The domain of a URL, or the empty text.
pub open spec fn url_domain_text(url: RequestUrl) -> Seq<char> {
    match url.domain {
        Some(d) => d@,
        None => Seq::empty(),
    }
}

/// The `name=value` texts of the cookies listed in `ps` that apply to a
/// request for `url` at `now`, in order.
pub open spec fn cookie_texts_for(ps: Seq<(String, CookieEntry)>, url: RequestUrl, now: u64) -> Seq<
    Seq<char>,
> {
    applicable_cookies(
        cookie_views(ps),
        url_domain_text(url),
        url.path@,
        url.scheme@ == "https"@,
        now,
    )
}

/// Whether `v[..]` ends with `p[lo..]`.
fn ends_with_range(v: &[char], p: &[char], lo: usize) -> (r: bool)
    requires
        lo <= p@.len(),
    ensures
        r == ends_with(v@, p@.subrange(lo as int, p@.len() as int)),
{
    let n = p.len() - lo;
    if n > v.len() {
        return false;
    }
    let start = v.len() - n;
    let ghost a = v@.subrange(start as int, v@.len() as int);
    let ghost b = p@.subrange(lo as int, p@.len() as int);
    let mut k: usize = 0;
    while k < n
        invariant
            k <= n == p@.len() - lo,
            v@.len() == v.len(),
            p@.len() == p.len(),
            start + n == v@.len(),
            lo <= p@.len(),
            a == v@.subrange(start as int, v@.len() as int),
            b == p@.subrange(lo as int, p@.len() as int),
            forall|m: int| 0 <= m < k ==> #[trigger] a[m] == b[m],
        decreases n - k,
    {
        assert(a[k as int] == v@[start + k]);
        assert(b[k as int] == p@[lo + k]);
        if v[start + k] != p[lo + k] {
            return false;
        }
        k = k + 1;
    }
    assert(a =~= b);
    true
}

/// Whether a cookie applies (see `cookie_applies`).
pub fn cookie_applies_to(
    c: &CookieEntry,
    domain: &Vec<char>,
    path: &Vec<char>,
    is_secure: bool,
    now: u64,
) -> (r: bool)
    ensures
        r == cookie_applies(c@, domain@, path@, is_secure, now),
{
    let cd = chars_of(c.domain.as_str());
    assert(cd@.subrange(0, cd@.len() as int) =~= cd@);
    let same_domain = range_equals(&cd, 0, cd.len(), domain);
    proof {
        reveal_strlit(".");
    }
    let dot_suffix = cd.len() >= 1 && range_starts_with(&cd, 0, cd.len(), &chars_of(".")) && ends_with_range(
        domain,
        &cd,
        1,
    );
    if !same_domain && !dot_suffix {
        return false;
    }
    let cp = chars_of(c.path.as_str());
    assert(path@.subrange(0, path@.len() as int) =~= path@);
    if !range_starts_with(path, 0, path.len(), &cp) {
        return false;
    }
    if !cookie_is_current(c, now) {
        return false;
    }
    if c.secure && !is_secure {
        return false;
    }
    true
}

/// The `name=value` texts of the cookies in `entries` that apply to a
/// request for `url` at time `now`, in order (see `applicable_cookies`).
pub fn applicable_cookie_texts(entries: &Vec<(String, CookieEntry)>, url: &RequestUrl, now: u64) -> (r:
    Vec<String>)
    ensures
        r@.map_values(|s: String| s@) == cookie_texts_for(entries@, *url, now),
{
    let domain: Vec<char> = match &url.domain {
        Some(d) => chars_of(d.as_str()),
        None => Vec::new(),
    };
    let path = chars_of(url.path.as_str());
    let is_secure = url.scheme == "https".to_owned();
    let ghost views = cookie_views(entries@);
    let mut r: Vec<String> = Vec::new();
    let mut i: usize = 0;
    while i < entries.len()
        invariant
            i <= entries@.len(),
            views == cookie_views(entries@),
            r@.map_values(|s: String| s@) == applicable_cookies(
                views.subrange(0, i as int),
                domain@,
                path@,
                is_secure,
                now,
            ),
        decreases entries@.len() - i,
    {
        let c = &entries[i].1;
        assert(views.subrange(0, i + 1).drop_last() =~= views.subrange(0, i as int));
        assert(views.subrange(0, i + 1).last() == c@);
        if cookie_applies_to(c, &domain, &path, is_secure, now) {
            let mut t = chars_of(c.name.as_str());
            push_str(&mut t, "=");
            push_str(&mut t, c.value.as_str());
            let ghost before = r@;
            r.push(string_of_all(&t));
            assert(r@.map_values(|s: String| s@) =~= before.map_values(|s: String| s@).push(
                t@,
            ));
        }
        i = i + 1;
    }
    assert(views.subrange(0, i as int) =~= views);
    r
}

/// The cookies in `es` whose domain contains `filter`, in order.
pub open spec fn filtered_cookies(es: Seq<CookieView>, filter: Option<Seq<char>>) -> Seq<
    CookieView,
>
    decreases es.len(),
{
    if es.len() == 0 {
        Seq::empty()
    } else {
        let rest = filtered_cookies(es.drop_last(), filter);
        match filter {
            Some(f) => if contains(es.last().2, f) {
                rest.push(es.last())
            } else {
                rest
            },
            None => rest.push(es.last()),
        }
    }
}

/// A copy of a cookie.
pub fn copy_entry(c: &CookieEntry) -> (r: CookieEntry)
    ensures
        r@ == c@,
{
    CookieEntry {
        name: c.name.clone(),
        value: c.value.clone(),
        domain: c.domain.clone(),
        path: c.path.clone(),
        expires: c.expires,
        secure: c.secure,
        http_only: c.http_only,
        same_site: match &c.same_site {
            Some(s) => Some(s.clone()),
            None => None,
        },
    }
}

/// The cookies of `entries` whose domain contains `filter` (all of them
/// without a filter), in order.
pub fn filter_cookies(entries: &Vec<(String, CookieEntry)>, filter: Option<&str>) -> (r: Vec<
    CookieEntry,
>)
    ensures
        r@.map_values(|c: CookieEntry| c@) == filtered_cookies(
            cookie_views(entries@),
            match filter {
                Some(f) => Some(f@),
                None => None,
            },
        ),
{
    let ghost views = cookie_views(entries@);
    let ghost fv = match filter {
        Some(f) => Some(f@),
        None => None::<Seq<char>>,
    };
    let f: Option<Vec<char>> = match filter {
        Some(f) => Some(chars_of(f)),
        None => None,
    };
    let mut r: Vec<CookieEntry> = Vec::new();
    let mut i: usize = 0;
    while i < entries.len()
        invariant
            i <= entries@.len(),
            views == cookie_views(entries@),
            fv == match filter {
                Some(f) => Some(f@),
                None => None::<Seq<char>>,
            },
            match f {
                Some(fc) => fv == Some(fc@),
                None => fv is None,
            },
            r@.map_values(|c: CookieEntry| c@) == filtered_cookies(views.subrange(0, i as int), fv),
        decreases entries@.len() - i,
    {
        let c = &entries[i].1;
        assert(views.subrange(0, i + 1).drop_last() =~= views.subrange(0, i as int));
        assert(views.subrange(0, i + 1).last() == c@);
        let keep = match &f {
            Some(fc) => {
                let d = chars_of(c.domain.as_str());
                crate::text::chars_contain(&d, fc)
            },
            None => true,
        };
        if keep {
            let ghost before = r@;
            r.push(copy_entry(c));
            assert(r@.map_values(|c: CookieEntry| c@) =~= before.map_values(|c: CookieEntry| c@).push(c@));
        }
        i = i + 1;
    }
    assert(views.subrange(0, i as int) =~= views);
    r
}

// ---------------------------------------------------------------------
// The manager
// ---------------------------------------------------------------------

/// Every cookie of a map is kept under its `domain:name` key.
pub open spec fn keyed_by_domain_and_name(m: Map<Seq<char>, CookieView>) -> bool {
    forall|k: Seq<char>| m.contains_key(k) ==> k == cookie_key(#[trigger] m[k])
}

/// The map after loading `cs` into `m` in order.
pub open spec fn loaded(m: Map<Seq<char>, CookieView>, cs: Seq<CookieView>) -> Map<
    Seq<char>,
    CookieView,
>
    decreases cs.len(),
{
    if cs.len() == 0 {
        m
    } else {
        loaded(m, cs.drop_last()).insert(cookie_key(cs.last()), cs.last())
    }
}

/// `ps` lists a cookie map: each key once, with its cookie.
pub open spec fn enumerates(ps: Seq<(String, CookieEntry)>, m: Map<Seq<char>, CookieView>) -> bool {
    names_distinct(ps) && pairs_map(ps) == m
}

/// The map after storing, in order, the cookies of the `Set-Cookie` texts
/// `cs` received from `url`; a text that does not parse is skipped, and a
/// cookie without a domain takes the URL's host.
pub open spec fn with_set_cookies(m: Map<Seq<char>, CookieView>, url: RequestUrl, cs: Seq<Seq<char>>) -> Map<
    Seq<char>,
    CookieView,
>
    decreases cs.len(),
{
    if cs.len() == 0 {
        m
    } else {
        let prev = with_set_cookies(m, url, cs.drop_last());
        let host = url_domain_text(url);
        match parsed_set_cookie(cs.last(), url.serialization@) {
            Some(a) => prev.insert(
                cookie_key(entry_of_attributes(a, host)),
                entry_of_attributes(a, host),
            ),
            None => prev,
        }
    }
}

/// Keeps cookies, keyed by `domain:name`, and the file they are saved in.
pub struct CookieManager {
    store: DashMap<String, CookieEntry>,
    file_path: String,
}

impl View for CookieManager {
    type V = Map<Seq<char>, CookieView>;

    closed spec fn view(&self) -> Map<Seq<char>, CookieView> {
        stored_cookies(self.store)
    }
}

impl CookieManager {
    #[verifier::type_invariant]
    spec fn keys_match_cookies(self) -> bool {
        keyed_by_domain_and_name(stored_cookies(self.store))
    }

    /// The file the cookies are saved in.
    pub closed spec fn saved_in(&self) -> Seq<char> {
        self.file_path@
    }

    /// A manager without cookies that saves them in `file_path`.
    pub fn new(file_path: String) -> (r: CookieManager)
        ensures
            r@ == no_cookies(),
            r.saved_in() == file_path@,
            keyed_by_domain_and_name(r@),
    {
        CookieManager { store: store_new(), file_path }
    }

    /// The file the cookies are saved in.
    pub fn file_path(&self) -> (r: &String)
        ensures
            r@ == self.saved_in(),
    {
        &self.file_path
    }

    /// Adds cookies read back from the file, in order, each under its key.
    pub fn load_entries(&mut self, cookies: Vec<CookieEntry>)
        ensures
            final(self)@ == loaded(old(self)@, cookies@.map_values(|c: CookieEntry| c@)),
            final(self).saved_in() == old(self).saved_in(),
            keyed_by_domain_and_name(final(self)@),
    {
        proof {
            use_type_invariant(&*self);
        }
        let ghost cs = cookies@.map_values(|c: CookieEntry| c@);
        let ghost start = stored_cookies(self.store);
        let mut store = store_new();
        std::mem::swap(&mut store, &mut self.store);
        let mut i: usize = 0;
        assert(cs.subrange(0, 0) =~= Seq::<CookieView>::empty());
        while i < cookies.len()
            invariant
                i <= cookies@.len(),
                cs == cookies@.map_values(|c: CookieEntry| c@),
                stored_cookies(store) == loaded(start, cs.subrange(0, i as int)),
                keyed_by_domain_and_name(stored_cookies(store)),
            decreases cookies@.len() - i,
        {
            let key = key_of(&cookies[i]);
            assert(cs.subrange(0, i + 1).drop_last() =~= cs.subrange(0, i as int));
            store_insert(&mut store, key, copy_entry(&cookies[i]));
            i = i + 1;
        }
        assert(cs.subrange(0, i as int) =~= cs);
        self.store = store;
    }

    /// The stored cookies with their keys, each once, in an order the store
    /// does not fix.
    pub fn stored_entries(&self) -> (r: Vec<(String, CookieEntry)>)
        ensures
            enumerates(r@, self@),
            keyed_by_domain_and_name(self@),
    {
        proof {
            use_type_invariant(self);
        }
        store_entries(&self.store)
    }

    /// Parses a `Set-Cookie` text received from `url` and stores the cookie
    /// under its `domain:name` key; a cookie without a domain takes the
    /// URL's host, and a text that does not parse is ignored.
    pub fn add_cookie(&mut self, url: &RequestUrl, cookie_str: &str)
        ensures
            final(self).saved_in() == old(self).saved_in(),
            keyed_by_domain_and_name(final(self)@),
            match parsed_set_cookie(cookie_str@, url.serialization@) {
                Some(a) => final(self)@ == old(self)@.insert(
                    cookie_key(entry_of_attributes(a, url_domain_text(*url))),
                    entry_of_attributes(a, url_domain_text(*url)),
                ),
                None => final(self)@ == old(self)@,
            },
    {
        proof {
            use_type_invariant(&*self);
        }
        match parse_set_cookie(cookie_str, url) {
            Some(a) => {
                let host = match &url.domain {
                    Some(d) => d.clone(),
                    None => String::new(),
                };
                let entry = entry_from_attributes(a, host.as_str());
                let key = key_of(&entry);
                let mut store = store_new();
                std::mem::swap(&mut store, &mut self.store);
                store_insert(&mut store, key, entry);
                self.store = store;
            },
            None => {},
        }
    }

    /// Stores, in order, the cookies of the `Set-Cookie` texts of a response
    /// to a request for `url` (see `add_cookie`).
    pub fn add_response_cookies(&mut self, url: &RequestUrl, cookies: &Vec<String>)
        ensures
            final(self).saved_in() == old(self).saved_in(),
            keyed_by_domain_and_name(final(self)@),
            final(self)@ == with_set_cookies(
                old(self)@,
                *url,
                cookies@.map_values(|c: String| c@),
            ),
    {
        proof {
            use_type_invariant(&*self);
        }
        let ghost cs = cookies@.map_values(|c: String| c@);
        let ghost start = self@;
        let mut i: usize = 0;
        assert(cs.subrange(0, 0) =~= Seq::<Seq<char>>::empty());
        while i < cookies.len()
            invariant
                i <= cookies@.len(),
                cs == cookies@.map_values(|c: String| c@),
                self.saved_in() == old(self).saved_in(),
                self@ == with_set_cookies(start, *url, cs.subrange(0, i as int)),
                keyed_by_domain_and_name(self@),
            decreases cookies@.len() - i,
        {
            assert(cs.subrange(0, i + 1).drop_last() =~= cs.subrange(0, i as int));
            assert(cs.subrange(0, i + 1).last() == cookies@[i as int]@);
            self.add_cookie(url, cookies[i].as_str());
            i = i + 1;
        }
        assert(cs.subrange(0, i as int) =~= cs);
    }

    /// The `name=value` texts of the cookies that apply to a request for
    /// `url` at time `now` (see `cookie_applies`), listed in the order of
    /// some enumeration of the store.
    pub fn cookies_for_url_at(&self, url: &RequestUrl, now: u64) -> (r: Vec<String>)
        ensures
            exists|ps: Seq<(String, CookieEntry)>|
                enumerates(ps, self@) && r@.map_values(|s: String| s@) == cookie_texts_for(ps, *url, now),
    {
        let entries = store_entries(&self.store);
        let r = applicable_cookie_texts(&entries, url, now);
        assert(enumerates(entries@, self@));
        r
    }

    /// The cookies that apply to a request for `url` now (see
    /// `cookies_for_url_at`); a clock before the Unix epoch counts as 0.
    pub fn get_cookies_for_url(&self, url: &RequestUrl) -> (r: Vec<String>)
        ensures
            exists|ps: Seq<(String, CookieEntry)>, now: u64|
                enumerates(ps, self@) && r@.map_values(|s: String| s@) == #[trigger] cookie_texts_for(ps, *url, now),
    {
        let now = match unix_time_secs() {
            Some(t) => t,
            None => 0,
        };
        self.cookies_for_url_at(url, now)
    }

    /// Removes the cookies that have expired at `now`.
    pub fn clear_expired_at(&mut self, now: u64)
        ensures
            final(self).saved_in() == old(self).saved_in(),
            final(self)@ == unexpired_at(old(self)@, now),
            forall|k: Seq<char>|
                final(self)@.contains_key(k) ==> cookie_current(#[trigger] final(self)@[k], now),
            keyed_by_domain_and_name(final(self)@),
    {
        proof {
            use_type_invariant(&*self);
        }
        let mut store = store_new();
        std::mem::swap(&mut store, &mut self.store);
        let ghost before = stored_cookies(store);
        store_retain_current(&mut store, now);
        assert(keyed_by_domain_and_name(stored_cookies(store)));
        self.store = store;
    }

    /// Removes the cookies that have expired now (see `clear_expired_at`);
    /// a clock before the Unix epoch counts as 0.
    pub fn clear_expired(&mut self)
        ensures
            final(self).saved_in() == old(self).saved_in(),
            exists|now: u64| final(self)@ == #[trigger] unexpired_at(old(self)@, now),
    {
        let now = match unix_time_secs() {
            Some(t) => t,
            None => 0,
        };
        self.clear_expired_at(now);
    }

    /// The stored cookies whose domain contains `domain_filter` (all of them
    /// without a filter), listed in the order of some enumeration of the
    /// store.
    pub fn list_cookies(&self, domain_filter: Option<&str>) -> (r: Vec<CookieEntry>)
        ensures
            exists|ps: Seq<(String, CookieEntry)>|
                enumerates(ps, self@) && r@.map_values(|c: CookieEntry| c@) == filtered_cookies(
                    cookie_views(ps),
                    match domain_filter {
                        Some(f) => Some(f@),
                        None => None,
                    },
                ),
    {
        let entries = store_entries(&self.store);
        let r = filter_cookies(&entries, domain_filter);
        assert(enumerates(entries@, self@));
        r
    }

    /// Removes every cookie.
    pub fn clear_all(&mut self)
        ensures
            final(self)@ == no_cookies(),
            final(self).saved_in() == old(self).saved_in(),
            keyed_by_domain_and_name(final(self)@),
    {
        let mut store = store_new();
        std::mem::swap(&mut store, &mut self.store);
        store_clear(&mut store);
        self.store = store;
    }
}


// ---------------------------------------------------------------------
// Laws
// ---------------------------------------------------------------------

proof fn lemma_applicable_contains(
    es: Seq<CookieView>,
    i: int,
    domain: Seq<char>,
    path: Seq<char>,
    is_secure: bool,
    now: u64,
)
    requires
        0 <= i < es.len(),
        cookie_applies(es[i], domain, path, is_secure, now),
    ensures
        applicable_cookies(es, domain, path, is_secure, now).contains(es[i].0 + "="@ + es[i].1),
    decreases es.len(),
{
    let rest = applicable_cookies(es.drop_last(), domain, path, is_secure, now);
    if i == es.len() - 1 {
        assert(applicable_cookies(es, domain, path, is_secure, now) == rest.push(es[i].0 + "="@ + es[i].1));
        assert(rest.push(es[i].0 + "="@ + es[i].1)[rest.len() as int] == es[i].0 + "="@ + es[i].1);
    } else {
        assert(es.drop_last()[i] == es[i]);
        lemma_applicable_contains(es.drop_last(), i, domain, path, is_secure, now);
        let t = es[i].0 + "="@ + es[i].1;
        let k = choose|k: int| 0 <= k < rest.len() && rest[k] == t;
        if cookie_applies(es.last(), domain, path, is_secure, now) {
            assert(rest.push(es.last().0 + "="@ + es.last().1)[k] == t);
        }
    }
}

/// The cookie listed under `key` in an enumeration of `m`.
proof fn lemma_enumerated_at(ps: Seq<(String, CookieEntry)>, m: Map<Seq<char>, CookieView>, key: Seq<char>) -> (i: int)
    requires
        enumerates(ps, m),
        m.contains_key(key),
    ensures
        0 <= i < ps.len(),
        ps[i].0@ == key,
        ps[i].1@ == m[key],
{
    lemma_pairs_map_domain(ps, key);
    let i = choose|i: int| 0 <= i < ps.len() && ps[i].0@ == key;
    lemma_pairs_map_value(ps, i);
    i
}

/// Read after write: once a cookie has been stored, every listing of the
/// store sends its `name=value` with each request that it applies to.
pub proof fn stored_cookie_is_sent(
    m: Map<Seq<char>, CookieView>,
    c: CookieView,
    ps: Seq<(String, CookieEntry)>,
    url: RequestUrl,
    now: u64,
)
    requires
        enumerates(ps, m.insert(cookie_key(c), c)),
        cookie_applies(c, url_domain_text(url), url.path@, url.scheme@ == "https"@, now),
    ensures
        cookie_texts_for(ps, url, now).contains(c.0 + "="@ + c.1),
{
    let i = lemma_enumerated_at(ps, m.insert(cookie_key(c), c), cookie_key(c));
    assert(cookie_views(ps)[i] == c);
    lemma_applicable_contains(
        cookie_views(ps),
        i,
        url_domain_text(url),
        url.path@,
        url.scheme@ == "https"@,
        now,
    );
}

proof fn lemma_loaded_pairs(ps: Seq<(String, CookieEntry)>)
    requires
        forall|i: int| 0 <= i < ps.len() ==> (#[trigger] ps[i]).0@ == cookie_key(ps[i].1@),
    ensures
        loaded(no_cookies(), cookie_views(ps)) == pairs_map(ps),
    decreases ps.len(),
{
    if ps.len() > 0 {
        assert(cookie_views(ps).drop_last() =~= cookie_views(ps.drop_last()));
        lemma_loaded_pairs(ps.drop_last());
        assert(ps.last() == ps[ps.len() - 1]);
    }
}

/// Saving and loading give the store back: loading, into an empty store,
/// the cookies of any listing of a store yields that store.
pub proof fn reloading_a_listing_restores_the_store(
    ps: Seq<(String, CookieEntry)>,
    m: Map<Seq<char>, CookieView>,
)
    requires
        enumerates(ps, m),
        keyed_by_domain_and_name(m),
    ensures
        loaded(no_cookies(), cookie_views(ps)) == m,
{
    assert forall|i: int| 0 <= i < ps.len() implies (#[trigger] ps[i]).0@ == cookie_key(ps[i].1@) by {
        lemma_pairs_map_value(ps, i);
    }
    lemma_loaded_pairs(ps);
}

/// After every cookie is cleared, a listing of the store is empty.
pub proof fn cleared_store_lists_nothing(ps: Seq<(String, CookieEntry)>, filter: Option<Seq<char>>)
    requires
        enumerates(ps, no_cookies()),
    ensures
        ps.len() == 0,
        filtered_cookies(cookie_views(ps), filter).len() == 0,
{
    lemma_pairs_map_len(ps);
    assert(no_cookies().dom() =~= Set::<Seq<char>>::empty());
}

/// Clearing expired cookies keeps exactly the cookies that are current,
/// unchanged, and clearing again at the same time changes nothing.
pub proof fn clearing_expired_keeps_current_cookies(m: Map<Seq<char>, CookieView>, now: u64)
    ensures
        forall|k: Seq<char>|
            #[trigger] unexpired_at(m, now).contains_key(k) <==> (m.contains_key(k) && cookie_current(
                m[k],
                now,
            )),
        forall|k: Seq<char>|
            unexpired_at(m, now).contains_key(k) ==> #[trigger] unexpired_at(m, now)[k] == m[k],
        unexpired_at(unexpired_at(m, now), now) == unexpired_at(m, now),
{
    assert(unexpired_at(unexpired_at(m, now), now) =~= unexpired_at(m, now));
}

proof fn lemma_filtered_members(es: Seq<CookieView>, f: Seq<char>)
    ensures
        forall|i: int|
            0 <= i < filtered_cookies(es, Some(f)).len() ==> contains(
                (#[trigger] filtered_cookies(es, Some(f))[i]).2,
                f,
            ),
        filtered_cookies(es, None).len() == es.len(),
    decreases es.len(),
{
    if es.len() > 0 {
        lemma_filtered_members(es.drop_last(), f);
        let rest = filtered_cookies(es.drop_last(), Some(f));
        assert forall|i: int|
            0 <= i < filtered_cookies(es, Some(f)).len() implies contains(
            (#[trigger] filtered_cookies(es, Some(f))[i]).2,
            f,
        ) by {
            if i < rest.len() {
                if contains(es.last().2, f) {
                    assert(rest.push(es.last())[i] == rest[i]);
                }
            }
        }
    }
}

/// Listing with a domain filter shows only cookies whose domain contains
/// the filter; listing without one shows every stored cookie.
pub proof fn domain_filter_selects_matching_cookies(
    ps: Seq<(String, CookieEntry)>,
    m: Map<Seq<char>, CookieView>,
    f: Seq<char>,
)
    requires
        enumerates(ps, m),
    ensures
        forall|i: int|
            0 <= i < filtered_cookies(cookie_views(ps), Some(f)).len() ==> contains(
                (#[trigger] filtered_cookies(cookie_views(ps), Some(f))[i]).2,
                f,
            ),
        filtered_cookies(cookie_views(ps), None).len() == m.dom().len(),
{
    lemma_filtered_members(cookie_views(ps), f);
    lemma_pairs_map_len(ps);
}

/// The text `t` is the `name=value` of a cookie of `es` that applies.
pub open spec fn sent_from(
    es: Seq<CookieView>,
    t: Seq<char>,
    domain: Seq<char>,
    path: Seq<char>,
    is_secure: bool,
    now: u64,
) -> bool {
    exists|i: int|
        0 <= i < es.len() && cookie_applies(#[trigger] es[i], domain, path, is_secure, now) && t
            == es[i].0 + "="@ + es[i].1
}

proof fn lemma_applicable_only(
    es: Seq<CookieView>,
    domain: Seq<char>,
    path: Seq<char>,
    is_secure: bool,
    now: u64,
)
    ensures
        forall|j: int|
            0 <= j < applicable_cookies(es, domain, path, is_secure, now).len() ==> sent_from(
                es,
                #[trigger] applicable_cookies(es, domain, path, is_secure, now)[j],
                domain,
                path,
                is_secure,
                now,
            ),
    decreases es.len(),
{
    if es.len() > 0 {
        let p = es.drop_last();
        lemma_applicable_only(p, domain, path, is_secure, now);
        let rest = applicable_cookies(p, domain, path, is_secure, now);
        assert forall|j: int|
            0 <= j < applicable_cookies(es, domain, path, is_secure, now).len() implies sent_from(
            es,
            #[trigger] applicable_cookies(es, domain, path, is_secure, now)[j],
            domain,
            path,
            is_secure,
            now,
        ) by {
            let t = applicable_cookies(es, domain, path, is_secure, now)[j];
            if j < rest.len() {
                assert(t == rest[j]);
                assert(sent_from(p, rest[j], domain, path, is_secure, now));
                let i = choose|i: int|
                    0 <= i < p.len() && cookie_applies(#[trigger] p[i], domain, path, is_secure, now)
                        && rest[j] == p[i].0 + "="@ + p[i].1;
                assert(es[i] == p[i]);
            } else {
                let last = es.len() - 1;
                assert(es[last] == es.last());
            }
        }
    }
}

/// The text `t` is the `name=value` of a cookie of `m` that applies to a
/// request for `url` at `now`.
pub open spec fn sent_from_store(m: Map<Seq<char>, CookieView>, t: Seq<char>, url: RequestUrl, now: u64) -> bool {
    exists|k: Seq<char>|
        m.contains_key(k) && cookie_applies(
            #[trigger] m[k],
            url_domain_text(url),
            url.path@,
            url.scheme@ == "https"@,
            now,
        ) && t == m[k].0 + "="@ + m[k].1
}

/// Cookies are sent only where they apply: every `name=value` sent with a
/// request comes from a stored cookie whose domain and path match the
/// request, that has not expired, and that is not a secure cookie sent
/// over plain http.
pub proof fn only_applicable_cookies_are_sent(
    ps: Seq<(String, CookieEntry)>,
    m: Map<Seq<char>, CookieView>,
    url: RequestUrl,
    now: u64,
)
    requires
        enumerates(ps, m),
    ensures
        forall|j: int|
            0 <= j < cookie_texts_for(ps, url, now).len() ==> sent_from_store(
                m,
                #[trigger] cookie_texts_for(ps, url, now)[j],
                url,
                now,
            ),
{
    let es = cookie_views(ps);
    let domain = url_domain_text(url);
    let secure = url.scheme@ == "https"@;
    lemma_applicable_only(es, domain, url.path@, secure, now);
    assert forall|j: int| 0 <= j < cookie_texts_for(ps, url, now).len() implies sent_from_store(
        m,
        #[trigger] cookie_texts_for(ps, url, now)[j],
        url,
        now,
    ) by {
        let t = cookie_texts_for(ps, url, now)[j];
        assert(sent_from(es, applicable_cookies(es, domain, url.path@, secure, now)[j], domain, url.path@, secure, now));
        let i = choose|i: int|
            0 <= i < es.len() && cookie_applies(#[trigger] es[i], domain, url.path@, secure, now) && t
                == es[i].0 + "="@ + es[i].1;
        lemma_pairs_map_value(ps, i);
        assert(m.contains_key(ps[i].0@) && m[ps[i].0@] == es[i]);
    }
}

proof fn lemma_listing_views(ps: Seq<(String, CookieEntry)>, m: Map<Seq<char>, CookieView>)
    requires
        enumerates(ps, m),
        keyed_by_domain_and_name(m),
    ensures
        cookie_views(ps).no_duplicates(),
        forall|v: CookieView|
            #[trigger] cookie_views(ps).contains(v) <==> exists|k: Seq<char>|
                m.contains_key(k) && #[trigger] m[k] == v,
{
    let es = cookie_views(ps);
    assert forall|i: int, j: int| 0 <= i < es.len() && 0 <= j < es.len() && i != j implies es[i]
        != es[j] by {
        lemma_pairs_map_value(ps, i);
        lemma_pairs_map_value(ps, j);
        if es[i] == es[j] {
            assert(ps[i].0@ == cookie_key(es[i]));
            assert(ps[j].0@ == cookie_key(es[j]));
            if i < j {
                assert(ps[i].0@ != ps[j].0@);
            } else {
                assert(ps[j].0@ != ps[i].0@);
            }
        }
    }
    assert forall|v: CookieView| #[trigger] es.contains(v) <==> exists|k: Seq<char>|
        m.contains_key(k) && #[trigger] m[k] == v by {
        if es.contains(v) {
            let i = choose|i: int| 0 <= i < es.len() && es[i] == v;
            lemma_pairs_map_value(ps, i);
            assert(m.contains_key(ps[i].0@) && m[ps[i].0@] == v);
        }
        if exists|k: Seq<char>| m.contains_key(k) && #[trigger] m[k] == v {
            let k = choose|k: Seq<char>| m.contains_key(k) && #[trigger] m[k] == v;
            let i = lemma_enumerated_at(ps, m, k);
            assert(es[i] == v);
        }
    }
}

/// Two listings of one store list the same cookies, each once: as
/// multisets they are equal, whatever order the store gives.
pub proof fn listings_agree(
    ps1: Seq<(String, CookieEntry)>,
    ps2: Seq<(String, CookieEntry)>,
    m: Map<Seq<char>, CookieView>,
)
    requires
        enumerates(ps1, m),
        enumerates(ps2, m),
        keyed_by_domain_and_name(m),
    ensures
        cookie_views(ps1).no_duplicates(),
        cookie_views(ps1).to_multiset() == cookie_views(ps2).to_multiset(),
{
    lemma_listing_views(ps1, m);
    lemma_listing_views(ps2, m);
    let a = cookie_views(ps1);
    let b = cookie_views(ps2);
    a.lemma_multiset_has_no_duplicates();
    b.lemma_multiset_has_no_duplicates();
    assert forall|v: CookieView| a.to_multiset().count(v) == b.to_multiset().count(v) by {
        vstd::seq_lib::to_multiset_contains(a, v);
        vstd::seq_lib::to_multiset_contains(b, v);
        assert(a.contains(v) == b.contains(v));
    }
    assert(a.to_multiset() =~= b.to_multiset());
}

proof fn lemma_filtered_none(es: Seq<CookieView>)
    ensures
        filtered_cookies(es, None) == es,
    decreases es.len(),
{
    if es.len() > 0 {
        lemma_filtered_none(es.drop_last());
        assert(es.drop_last().push(es.last()) =~= es);
    }
}

/// Saving and loading keep the cookies listed: a store loaded, when empty,
/// with a listing of another store lists, without a filter, the same
/// cookies as that store, as multisets.
pub proof fn reloaded_store_lists_the_same_cookies(
    ps: Seq<(String, CookieEntry)>,
    m: Map<Seq<char>, CookieView>,
    qs: Seq<(String, CookieEntry)>,
)
    requires
        enumerates(ps, m),
        keyed_by_domain_and_name(m),
        enumerates(qs, loaded(no_cookies(), cookie_views(ps))),
    ensures
        filtered_cookies(cookie_views(qs), None).to_multiset() == filtered_cookies(
            cookie_views(ps),
            None,
        ).to_multiset(),
{
    reloading_a_listing_restores_the_store(ps, m);
    listings_agree(qs, ps, m);
    lemma_filtered_none(cookie_views(qs));
    lemma_filtered_none(cookie_views(ps));
}

} // verus!
