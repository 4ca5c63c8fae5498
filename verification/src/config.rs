//! Default settings of the network monitor and of storage.
use vstd::prelude::*;

use crate::text::{chars_of, range_starts_with, starts_with};

verus! {

/// Settings of the network monitor.
pub struct NetworkConfig {
    pub interface: String,
    pub monitor_filter: String,
    pub buffer_size: usize,
}

/// Where cookies and the request log are kept.
pub struct StorageConfig {
    pub cookie_cache_path: String,
    pub request_log_path: String,
    pub max_cache_size: usize,
}

/// Whether an interface name is a placeholder (text beginning `<请用`) that
/// asks for an interface to be given.
pub fn interface_unspecified(interface: &str) -> (r: bool)
    ensures
        r == starts_with(interface@, "<请用"@),
{
    let v = chars_of(interface);
    let r = range_starts_with(&v, 0, v.len(), &chars_of("<请用"));
    assert(v@.subrange(0, v@.len() as int) =~= v@);
    r
}

impl NetworkConfig {
    /// The default monitor settings: interface `en0`, HTTP and HTTPS
    /// traffic, a 64 KiB buffer.
    pub fn default_settings() -> (r: NetworkConfig)
        ensures
            r.interface@ == "en0"@,
            r.monitor_filter@ == "tcp port 80 or tcp port 443"@,
            r.buffer_size == 65536,
    {
        NetworkConfig {
            interface: "en0".to_owned(),
            monitor_filter: "tcp port 80 or tcp port 443".to_owned(),
            buffer_size: 65536,
        }
    }
}

impl StorageConfig {
    /// The default storage: `./cookies.json`, `./requests.log`, 1000
    /// cached entries.
    pub fn default_paths() -> (r: StorageConfig)
        ensures
            r.cookie_cache_path@ == "./cookies.json"@,
            r.request_log_path@ == "./requests.log"@,
            r.max_cache_size == 1000,
    {
        StorageConfig {
            cookie_cache_path: "./cookies.json".to_owned(),
            request_log_path: "./requests.log".to_owned(),
            max_cache_size: 1000,
        }
    }
}

/// Whether `interface` is one of the device names `names` (the list the
/// capture library reports).
pub fn interface_listed(names: &Vec<String>, interface: &str) -> (r: bool)
    ensures
        r == exists|i: int| 0 <= i < names@.len() && (#[trigger] names@[i])@ == interface@,
{
    let wanted = interface.to_owned();
    let mut i: usize = 0;
    while i < names.len()
        invariant
            i <= names@.len(),
            wanted@ == interface@,
            forall|j: int| 0 <= j < i ==> (#[trigger] names@[j])@ != interface@,
        decreases names@.len() - i,
    {
        if names[i] == wanted {
            return true;
        }
        i = i + 1;
    }
    false
}

} // verus!
