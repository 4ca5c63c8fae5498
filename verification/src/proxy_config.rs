//! Proxy settings for the model downloads: whether to use the proxy, and
//! the environment it is announced in.
use vstd::prelude::*;

verus! {

/// The proxy that downloads go through.
pub open spec fn proxy_url() -> Seq<char> {
    "http://127.0.0.1:7897"@
}

/// The names of the environment variables that announce the proxy.
pub open spec fn proxy_variable_names() -> Seq<Seq<char>> {
    seq![
        "HTTP_PROXY"@,
        "HTTPS_PROXY"@,
        "http_proxy"@,
        "https_proxy"@,
        "ALL_PROXY"@,
        "all_proxy"@,
        "HTTPS_PROXY_URL"@,
        "HTTP_PROXY_URL"@,
    ]
}

/// Whether the proxy is used, by the value of `HF_USE_PROXY`: it is used
/// when the variable is unset or says `true`.
pub open spec fn proxy_wanted(setting: Option<Seq<char>>) -> bool {
    match setting {
        Some(s) => s == "true"@,
        None => true,
    }
}

/// Whether the proxy is used (see `proxy_wanted`).
pub fn should_use_proxy(setting: Option<String>) -> (r: bool)
    ensures
        r == proxy_wanted(
            match setting {
                Some(s) => Some(s@),
                None => None,
            },
        ),
{
    match setting {
        Some(s) => s == "true".to_owned(),
        None => true,
    }
}

/// The environment variables to set, each to the proxy's URL.
pub fn proxy_environment() -> (r: Vec<(String, String)>)
    ensures
        r@.len() == proxy_variable_names().len(),
        forall|i: int|
            0 <= i < r@.len() ==> (#[trigger] r@[i]).0@ == proxy_variable_names()[i] && r@[i].1@
                == proxy_url(),
{
    let mut r: Vec<(String, String)> = Vec::new();
    r.push(("HTTP_PROXY".to_owned(), "http://127.0.0.1:7897".to_owned()));
    r.push(("HTTPS_PROXY".to_owned(), "http://127.0.0.1:7897".to_owned()));
    r.push(("http_proxy".to_owned(), "http://127.0.0.1:7897".to_owned()));
    r.push(("https_proxy".to_owned(), "http://127.0.0.1:7897".to_owned()));
    r.push(("ALL_PROXY".to_owned(), "http://127.0.0.1:7897".to_owned()));
    r.push(("all_proxy".to_owned(), "http://127.0.0.1:7897".to_owned()));
    r.push(("HTTPS_PROXY_URL".to_owned(), "http://127.0.0.1:7897".to_owned()));
    r.push(("HTTP_PROXY_URL".to_owned(), "http://127.0.0.1:7897".to_owned()));
    r
}

/// Initialises the proxy settings once: the first call marks them
/// initialised and, when the proxy is wanted, gives the environment
/// variables to set; later calls give nothing.
pub fn init_proxy(initialized: &mut bool, setting: Option<String>) -> (r: Vec<(String, String)>)
    ensures
        *final(initialized),
        *old(initialized) ==> r@.len() == 0,
        !*old(initialized) && !proxy_wanted(
            match setting {
                Some(s) => Some(s@),
                None => None,
            },
        ) ==> r@.len() == 0,
        !*old(initialized) && proxy_wanted(
            match setting {
                Some(s) => Some(s@),
                None => None,
            },
        ) ==> {
            &&& r@.len() == proxy_variable_names().len()
            &&& forall|i: int|
                0 <= i < r@.len() ==> (#[trigger] r@[i]).0@ == proxy_variable_names()[i]
                    && r@[i].1@ == proxy_url()
        },
{
    if *initialized {
        return Vec::new();
    }
    *initialized = true;
    if should_use_proxy(setting) {
        proxy_environment()
    } else {
        Vec::new()
    }
}

} // verus!
