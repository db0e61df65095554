//! The npm registry's documents, and how the client names what it asks for
//! and keeps on disk. The requests themselves are made by the program around
//! the library.
use vstd::prelude::*;

use crate::config::{opt_view, NpmConfig};
use crate::hashing::{hex_encode, hex_of, sha256_digest, sha256_of};
use vstd::string::StringSliceAdditionalSpecFns;
use crate::json::{json_str, JsonValue};
use crate::strmap::{lookup, StrMap};
use crate::text::{
    chars_of, concat, find_seq, find_char, has_prefix, replace_char, replace_char_with, slice_of,
    string_of, trim_end_char, trim_end_matches_char,
};

verus! {

pub const DEFAULT_REGISTRY: &'static str = "https://registry.npmjs.org";

pub struct RegistryPackageMetadata {
    pub name: String,
    pub dist_tags: StrMap<String>,
    pub versions: StrMap<RegistryVersionMetadata>,
}

pub struct RegistryVersionMetadata {
    pub name: String,
    pub version: String,
    pub description: Option<String>,
    pub main: Option<String>,
    pub bin: Option<JsonValue>,
    pub dist: DistMetadata,
    pub dependencies: Option<StrMap<String>>,
    pub dev_dependencies: Option<StrMap<String>>,
    pub peer_dependencies: Option<StrMap<String>>,
    pub peer_dependencies_meta: Option<JsonValue>,
    pub optional_dependencies: Option<StrMap<String>>,
    pub engines: Option<StrMap<String>>,
    pub os: Option<Vec<String>>,
    pub cpu: Option<Vec<String>>,
    pub scripts: Option<StrMap<String>>,
}

pub struct DistMetadata {
    pub tarball: String,
    pub shasum: Option<String>,
    pub integrity: Option<String>,
}

impl Default for DistMetadata {
    fn default() -> (d: Self)
        ensures
            d.tarball@.len() == 0,
            d.shasum is None,
            d.integrity is None,
    {
        DistMetadata { tarball: String::new(), shasum: None, integrity: None }
    }
}

/// The engines table of a version document: an object keeps its string-valued
/// members, an array of names gives each name the range `*`, anything else gives none.
pub open spec fn engines_entry(v: JsonValue, k: Seq<char>) -> Option<Seq<char>> {
    match v {
        JsonValue::Object(ms) => last_string_value(ms@, k),
        JsonValue::Array(items) => if exists|i: int|
            0 <= i < items@.len() && json_str(#[trigger] items@[i]) == Some(k) {
            Some("*"@)
        } else {
            None
        },
        _ => None,
    }
}

/// The value of the last string-valued member named `k`.
pub open spec fn last_string_value(ms: Seq<(String, JsonValue)>, k: Seq<char>) -> Option<Seq<char>>
    decreases ms.len(),
{
    if ms.len() == 0 {
        None
    } else if ms.last().0@ == k && json_str(ms.last().1) is Some {
        json_str(ms.last().1)
    } else {
        last_string_value(ms.drop_last(), k)
    }
}

pub open spec fn entry_text(m: Seq<(String, String)>, k: Seq<char>) -> Option<Seq<char>> {
    match lookup(m, k) {
        Some(v) => Some(v@),
        None => None,
    }
}

/// Reads the `engines` field of a version document.
pub fn engines_from_json(val: &JsonValue) -> (r: Option<StrMap<String>>)
    ensures
        (r is Some) == (val is Object || val is Array),
        r matches Some(m) ==> forall|k: Seq<char>| entry_text(m@, k) == engines_entry(*val, k),
{
    match val {
        JsonValue::Object(ms) => {
            let mut result: StrMap<String> = StrMap::new();
            let mut i: usize = 0;
            while i < ms.len()
                invariant
                    i <= ms@.len(),
                    forall|k: Seq<char>|
                        entry_text(result@, k) == last_string_value(ms@.subrange(0, i as int), k),
                decreases ms@.len() - i,
            {
                let ghost pre = ms@.subrange(0, i as int);
                let ghost now = ms@.subrange(0, i + 1);
                assert(now.drop_last() =~= pre);
                assert(now.last() == ms@[i as int]);
                match &ms[i].1 {
                    JsonValue::Str(s) => {
                        let key = ms[i].0.clone();
                        let ghost before = result@;
                        result.insert(key, s.clone());
                        assert forall|k: Seq<char>|
                            entry_text(result@, k) == last_string_value(now, k) by {
                            if k != key@ {
                                assert(entry_text(result@, k) == entry_text(before, k));
                            }
                        }
                    },
                    _ => {
                        assert forall|k: Seq<char>|
                            entry_text(result@, k) == last_string_value(now, k) by {
                            assert(json_str(now.last().1) is None);
                        }
                    },
                }
                i = i + 1;
            }
            assert(ms@.subrange(0, ms@.len() as int) =~= ms@);
            Some(result)
        },
        JsonValue::Array(items) => {
            let mut result: StrMap<String> = StrMap::new();
            let mut i: usize = 0;
            proof {
                reveal_strlit("*");
            }
            while i < items.len()
                invariant
                    i <= items@.len(),
                    forall|k: Seq<char>|
                        entry_text(result@, k) == if exists|j: int|
                            0 <= j < i && json_str(#[trigger] items@[j]) == Some(k) {
                            Some("*"@)
                        } else {
                            None
                        },
                decreases items@.len() - i,
            {
                match &items[i] {
                    JsonValue::Str(s) => {
                        let ghost before = result@;
                        let star = string_of(chars_of("*"));
                        result.insert(s.clone(), star);
                        assert forall|k: Seq<char>|
                            entry_text(result@, k) == if exists|j: int|
                                0 <= j < i + 1 && json_str(#[trigger] items@[j]) == Some(k) {
                                Some("*"@)
                            } else {
                                None
                            } by {
                            if k == s@ {
                                assert(json_str(items@[i as int]) == Some(k));
                            } else {
                                assert(entry_text(result@, k) == entry_text(before, k));
                                if exists|j: int| 0 <= j < i + 1 && json_str(#[trigger] items@[j]) == Some(k) {
                                    let j = choose|j: int| 0 <= j < i + 1 && json_str(#[trigger] items@[j]) == Some(k);
                                    assert(j != i);
                                }
                            }
                        }
                    },
                    _ => {
                        assert forall|k: Seq<char>|
                            entry_text(result@, k) == if exists|j: int|
                                0 <= j < i + 1 && json_str(#[trigger] items@[j]) == Some(k) {
                                Some("*"@)
                            } else {
                                None
                            } by {
                            if exists|j: int| 0 <= j < i + 1 && json_str(#[trigger] items@[j]) == Some(k) {
                                let j = choose|j: int| 0 <= j < i + 1 && json_str(#[trigger] items@[j]) == Some(k);
                                assert(j != i);
                            }
                        }
                    },
                }
                i = i + 1;
            }
            Some(result)
        },
        _ => None,
    }
}

/// The registry the client talks to: the one given, else the configured one,
/// else the public registry; without trailing slashes.
pub open spec fn registry_base(given: Option<Seq<char>>, configured: Option<Seq<char>>) -> Seq<
    char,
> {
    let chosen = match given {
        Some(g) => g,
        None => match configured {
            Some(c) => c,
            None => DEFAULT_REGISTRY@,
        },
    };
    trim_end_char(chosen, '/')
}

pub fn registry_url_for(registry_url: Option<String>, config: &NpmConfig) -> (r: String)
    ensures
        r@ == registry_base(opt_view(registry_url), opt_view(config.registry)),
{
    let chosen = match registry_url {
        Some(g) => chars_of(g.as_str()),
        None => match &config.registry {
            Some(c) => chars_of(c.as_str()),
            None => chars_of(DEFAULT_REGISTRY),
        },
    };
    string_of(trim_end_matches_char(&chosen, '/'))
}

/// How a package name appears in a registry URL: a scoped name `@scope/pkg`
/// has its slash written `%2f`.
pub open spec fn encoded_name(name: Seq<char>) -> Seq<char> {
    if has_prefix(name, "@"@) {
        let stripped = name.drop_first();
        match find_seq(stripped, "/"@) {
            Some(i) => "@"@ + stripped.subrange(0, i) + "%2f"@ + stripped.subrange(
                i + 1,
                stripped.len() as int,
            ),
            None => name,
        }
    } else {
        name
    }
}

pub fn encode_package_name(name: &str) -> (r: String)
    ensures
        r@ == encoded_name(name@),
{
    let n = chars_of(name);
    proof {
        reveal_strlit("@");
        reveal_strlit("/");
    }
    if n.len() > 0 && n[0] == '@' {
        assert(n@.subrange(0, 1) =~= "@"@);
        let stripped = slice_of(&n, 1, n.len());
        assert(stripped@ =~= n@.drop_first());
        match find_char(&stripped, '/') {
            Some(i) => {
                assert("/"@ =~= seq!['/']);
                let scope = slice_of(&stripped, 0, i);
                let rest = slice_of(&stripped, i + 1, stripped.len());
                let a = concat(&chars_of("@"), &scope);
                let b = concat(&a, &chars_of("%2f"));
                let c = concat(&b, &rest);
                assert(c@ =~= encoded_name(name@));
                string_of(c)
            },
            None => {
                assert("/"@ =~= seq!['/']);
                string_of(n)
            },
        }
    } else {
        proof {
            if n@.len() > 0 {
                assert(n@.subrange(0, 1)[0] == n@[0]);
            }
        }
        string_of(n)
    }
}

/// The registry URL of a package's metadata document.
pub fn metadata_url(registry: &str, name: &str) -> (r: String)
    ensures
        r@ == registry@ + "/"@ + encoded_name(name@),
{
    let a = concat(&chars_of(registry), &chars_of("/"));
    let b = concat(&a, &chars_of(encode_package_name(name).as_str()));
    string_of(b)
}

/// The file a package's metadata document is cached in: its name with each
/// `/` written `%2f`, and `.json`.
pub fn metadata_cache_file(name: &str) -> (r: String)
    ensures
        r@ == replace_char(name@, '/', "%2f"@) + ".json"@,
{
    let e = replace_char_with(&chars_of(name), '/', &chars_of("%2f"));
    string_of(concat(&e, &chars_of(".json")))
}

/// The file a downloaded tarball is cached in: the hexadecimal SHA-256 digest of
/// its URL, and `.tgz`.
pub fn tarball_cache_file(url: &str) -> (r: String)
    ensures
        r@ == hex_of(sha256_of(url.spec_bytes())) + ".tgz"@,
{
    let digest = sha256_digest(url.as_bytes());
    let h = hex_encode(digest.as_slice());
    string_of(concat(&chars_of(h.as_str()), &chars_of(".tgz")))
}

/// What the HTTP status of a registry response means for the request.
pub enum ResponseVerdict {
    /// A success: read the body.
    Accept,
    /// The registry has no such package.
    NotFound,
    /// Try again, while attempts remain.
    Retry,
}

/// A success status (2xx).
pub open spec fn is_success(status: u16) -> bool {
    200 <= status <= 299
}

/// A metadata request: a success is read, 404 means the package does not
/// exist, anything else is retried.
pub fn metadata_verdict(status: u16) -> (v: ResponseVerdict)
    ensures
        is_success(status) ==> v is Accept,
        status == 404 ==> v is NotFound,
        !is_success(status) && status != 404 ==> v is Retry,
{
    if 200 <= status && status <= 299 {
        ResponseVerdict::Accept
    } else if status == 404 {
        ResponseVerdict::NotFound
    } else {
        ResponseVerdict::Retry
    }
}

/// A tarball download: a success is read, anything else is retried.
pub fn tarball_verdict(status: u16) -> (v: ResponseVerdict)
    ensures
        is_success(status) ==> v is Accept,
        !is_success(status) ==> v is Retry,
{
    if 200 <= status && status <= 299 {
        ResponseVerdict::Accept
    } else {
        ResponseVerdict::Retry
    }
}

/// How many times a registry request is tried before its last error is reported.
pub open spec fn retry_attempts_spec() -> u32 {
    3
}

/// How many times a registry request is tried before its last error is reported.
pub fn retry_attempts() -> (n: u32)
    ensures
        n == retry_attempts_spec(),
{
    3
}

/// Milliseconds to wait before a retry of a request: doubling from 400.
pub fn retry_delay_ms(attempt: u32) -> (ms: u64)
    requires
        attempt < 3,
    ensures
        attempt == 0 ==> ms == 0,
        attempt == 1 ==> ms == 400,
        attempt == 2 ==> ms == 800,
{
    if attempt == 0 {
        0
    } else if attempt == 1 {
        400
    } else {
        800
    }
}

/// Where a fetch from the registry (a metadata document or a tarball) stands.
#[derive(Clone, Copy, Debug)]
pub struct RegistryFetch {
    /// The fetch first looks in the in-memory cache (metadata documents).
    pub memory_cache: bool,
    /// The caches are passed over (a fresh document is wanted).
    pub bypass_cache: bool,
    /// No request may be made: only what is cached can be used.
    pub offline: bool,
    /// The attempt of the request in flight (0 for the first).
    pub attempt: u32,
}

/// What the outside reports back to the fetch.
pub enum FetchEvent {
    /// The fetch starts.
    Begin,
    /// The in-memory cache was looked in.
    MemoryLooked { hit: bool },
    /// The on-disk cache was read (`hit` when it held a readable entry).
    DiskLooked { hit: bool },
    /// The request was answered with a status of that verdict.
    Answered { verdict: ResponseVerdict },
    /// The request got no answer.
    RequestFailed,
}

/// What the outside is to do next.
#[derive(Debug, PartialEq, Eq, Structural)]
pub enum FetchAction {
    LookInMemory,
    LookOnDisk,
    /// Send the request, after waiting `delay_ms` milliseconds.
    Request { attempt: u32, delay_ms: u64 },
    /// Use the cached entry that was found.
    UseCached,
    /// Use the response, and store it in the caches.
    StoreResponse,
    /// Report that the registry has no such package.
    NotFound,
    /// Report that nothing is cached and offline mode forbids a request.
    OfflineMiss,
    /// Report the last request's error: no attempts are left.
    GiveUp,
}

/// The delay before an attempt, as `retry_delay_ms` gives it.
pub open spec fn delay_before(attempt: u32) -> u64 {
    if attempt == 0 {
        0
    } else if attempt == 1 {
        400
    } else {
        800
    }
}

/// The first request.
pub open spec fn first_request(st: RegistryFetch) -> (RegistryFetch, FetchAction) {
    if st.offline {
        (st, FetchAction::OfflineMiss)
    } else {
        (RegistryFetch { attempt: 0, ..st }, FetchAction::Request { attempt: 0, delay_ms: 0 })
    }
}

/// The step of a registry fetch: the caches first (unless passed over),
/// memory then disk; then, unless offline, up to `retry_attempts()` requests,
/// each retry after its delay; a success is used and stored, a 404 of a
/// metadata request ends the fetch, anything else is tried again while
/// attempts remain.
pub open spec fn fetch_next(st: RegistryFetch, ev: FetchEvent) -> (RegistryFetch, FetchAction) {
    match ev {
        FetchEvent::Begin => if st.bypass_cache {
            first_request(st)
        } else if st.memory_cache {
            (st, FetchAction::LookInMemory)
        } else {
            (st, FetchAction::LookOnDisk)
        },
        FetchEvent::MemoryLooked { hit } => if hit {
            (st, FetchAction::UseCached)
        } else {
            (st, FetchAction::LookOnDisk)
        },
        FetchEvent::DiskLooked { hit } => if hit {
            (st, FetchAction::UseCached)
        } else {
            first_request(st)
        },
        FetchEvent::Answered { verdict: ResponseVerdict::Accept } => (st, FetchAction::StoreResponse),
        FetchEvent::Answered { verdict: ResponseVerdict::NotFound } => (st, FetchAction::NotFound),
        _ => if st.attempt + 1 < 3 {
            (
                RegistryFetch { attempt: (st.attempt + 1) as u32, ..st },
                FetchAction::Request {
                    attempt: (st.attempt + 1) as u32,
                    delay_ms: delay_before((st.attempt + 1) as u32),
                },
            )
        } else {
            (st, FetchAction::GiveUp)
        },
    }
}

/// Decides the next action of a registry fetch from what the outside reported.
pub fn fetch_step(st: &RegistryFetch, ev: FetchEvent) -> (r: (RegistryFetch, FetchAction))
    requires
        st.attempt < retry_attempts_spec(),
    ensures
        r == fetch_next(*st, ev),
        r.0.attempt < retry_attempts_spec(),
{
    let same = RegistryFetch {
        memory_cache: st.memory_cache,
        bypass_cache: st.bypass_cache,
        offline: st.offline,
        attempt: st.attempt,
    };
    let first = if st.offline {
        (same, FetchAction::OfflineMiss)
    } else {
        (
            RegistryFetch { attempt: 0, ..same },
            FetchAction::Request { attempt: 0, delay_ms: retry_delay_ms(0) },
        )
    };
    match ev {
        FetchEvent::Begin => if st.bypass_cache {
            first
        } else if st.memory_cache {
            (same, FetchAction::LookInMemory)
        } else {
            (same, FetchAction::LookOnDisk)
        },
        FetchEvent::MemoryLooked { hit } => if hit {
            (same, FetchAction::UseCached)
        } else {
            (same, FetchAction::LookOnDisk)
        },
        FetchEvent::DiskLooked { hit } => if hit {
            (same, FetchAction::UseCached)
        } else {
            first
        },
        FetchEvent::Answered { verdict: ResponseVerdict::Accept } => (same, FetchAction::StoreResponse),
        FetchEvent::Answered { verdict: ResponseVerdict::NotFound } => (same, FetchAction::NotFound),
        _ => if st.attempt + 1 < retry_attempts() {
            let next = st.attempt + 1;
            (
                RegistryFetch { attempt: next, ..same },
                FetchAction::Request { attempt: next, delay_ms: retry_delay_ms(next) },
            )
        } else {
            (same, FetchAction::GiveUp)
        },
    }
}

} // verus!
