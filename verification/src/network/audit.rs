//! Security audit against the registry's bulk advisory endpoint: what is asked
//! about, and how the advisories that come back are counted. The request
//! itself is sent by the program around the library.
use vstd::prelude::*;

use crate::compression::{gzip_compress, gzip_of};
use crate::json::JsonValue;
use crate::package::lockfile::{LockPackage, PackageLock};
use crate::package::why::entry_name;
use crate::strmap::{has_key, lookup, StrMap};
use crate::text::{chars_eq, chars_of, concat, split_last_piece, string_of, strip_prefix};

verus! {

#[derive(Debug, Clone, Copy, PartialEq, Eq, Structural, PartialOrd, Ord)]
pub enum Severity {
    Info,
    Low,
    Moderate,
    High,
    Critical,
}

/// The character with ASCII upper-case letters made lower-case.
pub open spec fn ascii_lower(c: char) -> char {
    if 'A' <= c && c <= 'Z' {
        ((c as u32) + 32) as char
    } else {
        c
    }
}

pub open spec fn lower_text(s: Seq<char>) -> Seq<char> {
    s.map_values(|c: char| ascii_lower(c))
}

/// The severity a level name gives, whatever its case; an unknown name is `Low`.
/// (Only ASCII letters are folded: no other character lower-cases to the
/// letters these names are made of but the Kelvin sign, which none contains.)
pub open spec fn severity_named(s: Seq<char>) -> Severity {
    let l = lower_text(s);
    if l == "info"@ {
        Severity::Info
    } else if l == "low"@ {
        Severity::Low
    } else if l == "moderate"@ || l == "medium"@ {
        Severity::Moderate
    } else if l == "high"@ {
        Severity::High
    } else if l == "critical"@ {
        Severity::Critical
    } else {
        Severity::Low
    }
}

pub open spec fn rank_of(s: Severity) -> u8 {
    match s {
        Severity::Info => 0,
        Severity::Low => 1,
        Severity::Moderate => 2,
        Severity::High => 3,
        Severity::Critical => 4,
    }
}

pub fn lower_chars(s: &str) -> (r: Vec<char>)
    ensures
        r@ == lower_text(s@),
{
    let v = chars_of(s);
    let mut out: Vec<char> = Vec::new();
    let mut i: usize = 0;
    while i < v.len()
        invariant
            i <= v@.len(),
            out@ == lower_text(v@).subrange(0, i as int),
        decreases v@.len() - i,
    {
        let c = v[i];
        let l = if 'A' <= c && c <= 'Z' {
            let n: u8 = (c as u32 + 32) as u8;
            n as char
        } else {
            c
        };
        assert(l == ascii_lower(c));
        out.push(l);
        assert(out@ =~= lower_text(v@).subrange(0, i + 1));
        i = i + 1;
    }
    assert(lower_text(v@).subrange(0, v@.len() as int) =~= lower_text(v@));
    out
}

impl Severity {
    pub fn from_str_loose(s: &str) -> (r: Self)
        ensures
            r == severity_named(s@),
    {
        let l = lower_chars(s);
        if chars_eq(&l, &chars_of("info")) {
            Severity::Info
        } else if chars_eq(&l, &chars_of("low")) {
            Severity::Low
        } else if chars_eq(&l, &chars_of("moderate")) || chars_eq(&l, &chars_of("medium")) {
            Severity::Moderate
        } else if chars_eq(&l, &chars_of("high")) {
            Severity::High
        } else if chars_eq(&l, &chars_of("critical")) {
            Severity::Critical
        } else {
            Severity::Low
        }
    }

    pub fn rank(&self) -> (r: u8)
        ensures
            r == rank_of(*self),
    {
        match self {
            Severity::Info => 0,
            Severity::Low => 1,
            Severity::Moderate => 2,
            Severity::High => 3,
            Severity::Critical => 4,
        }
    }
}

/// A CVSS rating; the score keeps the text of its JSON number.
pub struct CvssInfo {
    pub score: Option<String>,
    pub vector_string: Option<String>,
}

pub struct AdvisoryItem {
    pub id: Option<JsonValue>,
    pub url: Option<String>,
    pub title: Option<String>,
    pub severity: Option<String>,
    pub vulnerable_versions: Option<String>,
    pub cwe: Vec<String>,
    pub cvss: Option<CvssInfo>,
}

pub struct AuditReport {
    pub advisories: StrMap<Vec<AdvisoryItem>>,
    pub metadata: AuditMetadata,
}

#[derive(Debug, Clone, Copy, PartialEq, Eq, Structural)]
pub struct AuditMetadata {
    pub total_dependencies: usize,
    pub vulnerabilities: VulnerabilityCount,
}

#[derive(Debug, Clone, Copy, PartialEq, Eq, Structural)]
pub struct VulnerabilityCount {
    pub info: usize,
    pub low: usize,
    pub moderate: usize,
    pub high: usize,
    pub critical: usize,
    pub total: usize,
}

impl Default for VulnerabilityCount {
    fn default() -> (c: Self)
        ensures
            c == (VulnerabilityCount { info: 0, low: 0, moderate: 0, high: 0, critical: 0, total: 0 }),
    {
        VulnerabilityCount { info: 0, low: 0, moderate: 0, high: 0, critical: 0, total: 0 }
    }
}

impl Default for AuditMetadata {
    fn default() -> (m: Self)
        ensures
            m.total_dependencies == 0,
            m.vulnerabilities == (VulnerabilityCount { info: 0, low: 0, moderate: 0, high: 0, critical: 0, total: 0 }),
    {
        AuditMetadata { total_dependencies: 0, vulnerabilities: VulnerabilityCount::default() }
    }
}

/// The lockfile entry is asked about: not the root, not a dev package when
/// those are left out, and with a version.
pub open spec fn audited(path: Seq<char>, e: LockPackage, omit_dev: bool) -> bool {
    path.len() != 0 && !(omit_dev && e.dev) && e.version is Some
}

/// The versions asked about for the package `name`, each once, in lockfile order.
pub open spec fn versions_asked(entries: Seq<(String, LockPackage)>, omit_dev: bool, name: Seq<char>) -> Seq<
    Seq<char>,
>
    decreases entries.len(),
{
    if entries.len() == 0 {
        Seq::empty()
    } else {
        let prev = versions_asked(entries.drop_last(), omit_dev, name);
        let (p, e) = entries.last();
        if audited(p@, e, omit_dev) && entry_name(p@, e) == name && !prev.contains(e.version->0@) {
            prev.push(e.version->0@)
        } else {
            prev
        }
    }
}

/// How many lockfile entries are asked about.
pub open spec fn audited_count(entries: Seq<(String, LockPackage)>, omit_dev: bool) -> nat
    decreases entries.len(),
{
    if entries.len() == 0 {
        0
    } else {
        audited_count(entries.drop_last(), omit_dev) + if audited(
            entries.last().0@,
            entries.last().1,
            omit_dev,
        ) {
            1nat
        } else {
            0nat
        }
    }
}

pub open spec fn texts_of(v: Seq<String>) -> Seq<Seq<char>> {
    v.map_values(|s: String| s@)
}

/// The request of a bulk audit: package name to the versions installed, and the
/// number of lockfile entries asked about.
pub fn audit_payload(lockfile: &PackageLock, omit_dev: bool) -> (r: (StrMap<Vec<String>>, usize))
    ensures
        r.1 == audited_count(lockfile.packages@, omit_dev),
        forall|k: Seq<char>|
            #![trigger lookup(r.0@, k)]
            match lookup(r.0@, k) {
                Some(vs) => texts_of(vs@) == versions_asked(lockfile.packages@, omit_dev, k)
                    && vs@.len() > 0,
                None => versions_asked(lockfile.packages@, omit_dev, k).len() == 0,
            },
{
    let es = lockfile.packages.entries();
    let mut payload: StrMap<Vec<String>> = StrMap::new();
    let mut total: usize = 0;
    let mut i: usize = 0;
    while i < es.len()
        invariant
            i <= es@.len(),
            es@ == lockfile.packages@,
            total == audited_count(es@.subrange(0, i as int), omit_dev),
            total <= i,
            forall|k: Seq<char>|
                #![trigger lookup(payload@, k)]
                match lookup(payload@, k) {
                    Some(vs) => texts_of(vs@) == versions_asked(es@.subrange(0, i as int), omit_dev, k)
                        && vs@.len() > 0,
                    None => versions_asked(es@.subrange(0, i as int), omit_dev, k).len() == 0,
                },
        decreases es@.len() - i,
    {
        let ghost sub = es@.subrange(0, i + 1);
        assert(sub.drop_last() =~= es@.subrange(0, i as int));
        assert(sub.last() == es@[i as int]);
        let (path, e) = (&es[i].0, &es[i].1);
        let skip = chars_of(path.as_str()).len() == 0 || (omit_dev && e.dev);
        if !skip {
            if let Some(v) = &e.version {
                let name = crate::package::why::entry_name_text(path, e);
                total = total + 1;
                let key = chars_of(name.as_str());
                let ghost before = payload@;
                let mut list = match payload.remove(&key) {
                    Some(l) => l,
                    None => Vec::new(),
                };
                let ghost l0 = texts_of(list@);
                let vc = chars_of(v.as_str());
                let mut found = false;
                let mut j: usize = 0;
                while j < list.len()
                    invariant
                        j <= list@.len(),
                        found == texts_of(list@).subrange(0, j as int).contains(vc@),
                    decreases list@.len() - j,
                {
                    if chars_eq(&chars_of(list[j].as_str()), &vc) {
                        found = true;
                        assert(texts_of(list@).subrange(0, j + 1)[j as int] == vc@);
                    }
                    assert(texts_of(list@).subrange(0, j + 1) =~= texts_of(list@).subrange(0, j as int).push(list@[j as int]@));
                    j = j + 1;
                }
                assert(texts_of(list@).subrange(0, list@.len() as int) =~= texts_of(list@));
                if !found {
                    list.push(v.clone());
                    assert(texts_of(list@) =~= l0.push(vc@));
                }
                payload.insert(name, list);
                assert forall|k: Seq<char>|
                    #![trigger lookup(payload@, k)]
                    match lookup(payload@, k) {
                        Some(vs) => texts_of(vs@) == versions_asked(sub, omit_dev, k) && vs@.len() > 0,
                        None => versions_asked(sub, omit_dev, k).len() == 0,
                    } by {
                    if k != key@ {
                        assert(lookup(payload@, k) == lookup(before, k));
                    }
                }
            } else {
                assert forall|k: Seq<char>|
                    #[trigger] versions_asked(sub, omit_dev, k) == versions_asked(es@.subrange(0, i as int), omit_dev, k) by {}
            }
        } else {
            assert forall|k: Seq<char>|
                #[trigger] versions_asked(sub, omit_dev, k) == versions_asked(es@.subrange(0, i as int), omit_dev, k) by {}
        }
        i = i + 1;
    }
    assert(es@.subrange(0, es@.len() as int) =~= es@);
    (payload, total)
}

/// The severity an advisory counts under: its own, `Low` when it names none.
pub open spec fn advisory_severity(a: AdvisoryItem) -> Severity {
    match a.severity {
        Some(s) => severity_named(s@),
        None => Severity::Low,
    }
}

/// Every advisory of the report, package by package.
pub open spec fn all_advisories(advs: Seq<(String, Vec<AdvisoryItem>)>) -> Seq<AdvisoryItem>
    decreases advs.len(),
{
    if advs.len() == 0 {
        Seq::empty()
    } else {
        all_advisories(advs.drop_last()) + advs.last().1@
    }
}

/// How many of the advisories count under `s`.
pub open spec fn count_of(items: Seq<AdvisoryItem>, s: Severity) -> nat
    decreases items.len(),
{
    if items.len() == 0 {
        0
    } else {
        count_of(items.drop_last(), s) + if advisory_severity(items.last()) == s {
            1nat
        } else {
            0nat
        }
    }
}

/// The counts of a list of advisories.
pub open spec fn counted(items: Seq<AdvisoryItem>) -> VulnerabilityCount {
    VulnerabilityCount {
        info: count_of(items, Severity::Info) as usize,
        low: count_of(items, Severity::Low) as usize,
        moderate: count_of(items, Severity::Moderate) as usize,
        high: count_of(items, Severity::High) as usize,
        critical: count_of(items, Severity::Critical) as usize,
        total: items.len() as usize,
    }
}

proof fn lemma_counts_bounded(items: Seq<AdvisoryItem>)
    ensures
        count_of(items, Severity::Info) + count_of(items, Severity::Low) + count_of(items, Severity::Moderate)
            + count_of(items, Severity::High) + count_of(items, Severity::Critical) == items.len(),
    decreases items.len(),
{
    if items.len() > 0 {
        lemma_counts_bounded(items.drop_last());
    }
}

/// The report for the advisories the endpoint returned, over `total_dependencies`
/// entries asked about.
pub fn summarize(advisories: StrMap<Vec<AdvisoryItem>>, total_dependencies: usize) -> (r: AuditReport)
    requires
        all_advisories(advisories@).len() <= usize::MAX,
    ensures
        r.advisories == advisories,
        r.metadata.total_dependencies == total_dependencies,
        r.metadata.vulnerabilities == counted(all_advisories(advisories@)),
{
    let mut count = VulnerabilityCount::default();
    let es = advisories.entries();
    let mut i: usize = 0;
    while i < es.len()
        invariant
            i <= es@.len(),
            es@ == advisories@,
            all_advisories(advisories@).len() <= usize::MAX,
            count == counted(all_advisories(es@.subrange(0, i as int))),
        decreases es@.len() - i,
    {
        let ghost sub = es@.subrange(0, i + 1);
        assert(sub.drop_last() =~= es@.subrange(0, i as int));
        let list = &es[i].1;
        let ghost base = all_advisories(es@.subrange(0, i as int));
        proof {
            lemma_all_advisories_prefix(es@, i + 1);
        }
        let mut j: usize = 0;
        while j < list.len()
            invariant
                j <= list@.len(),
                all_advisories(es@.subrange(0, i + 1)) == base + list@,
                all_advisories(advisories@).len() <= usize::MAX,
                all_advisories(es@.subrange(0, i + 1)).len() <= all_advisories(advisories@).len(),
                count == counted(base + list@.subrange(0, j as int)),
            decreases list@.len() - j,
        {
            let ghost before = base + list@.subrange(0, j as int);
            let ghost after = base + list@.subrange(0, j + 1);
            assert(after.drop_last() =~= before);
            assert(after.last() == list@[j as int]);
            proof {
                lemma_counts_bounded(after);
            }
            let sev = match &list[j].severity {
                Some(s) => Severity::from_str_loose(s.as_str()),
                None => Severity::Low,
            };
            count.total = count.total + 1;
            match sev {
                Severity::Info => count.info = count.info + 1,
                Severity::Low => count.low = count.low + 1,
                Severity::Moderate => count.moderate = count.moderate + 1,
                Severity::High => count.high = count.high + 1,
                Severity::Critical => count.critical = count.critical + 1,
            }
            j = j + 1;
        }
        assert(list@.subrange(0, list@.len() as int) =~= list@);
        i = i + 1;
    }
    assert(es@.subrange(0, es@.len() as int) =~= es@);
    AuditReport {
        advisories,
        metadata: AuditMetadata { total_dependencies, vulnerabilities: count },
    }
}

proof fn lemma_all_advisories_prefix(advs: Seq<(String, Vec<AdvisoryItem>)>, n: int)
    requires
        0 <= n <= advs.len(),
    ensures
        all_advisories(advs.subrange(0, n)).len() <= all_advisories(advs).len(),
    decreases advs.len() - n,
{
    if n < advs.len() {
        lemma_all_advisories_prefix(advs, n + 1);
        let s = advs.subrange(0, n + 1);
        assert(s.drop_last() =~= advs.subrange(0, n));
    } else {
        assert(advs.subrange(0, n) =~= advs);
    }
}

/// The body of the bulk advisory request: the JSON of the payload, gzipped.

/// The request payload as text: package names with their lists of versions.
pub open spec fn payload_entries(p: Seq<(String, Vec<String>)>) -> Seq<(Seq<char>, Seq<Seq<char>>)> {
    p.map_values(|e: (String, Vec<String>)| (e.0@, texts_of(e.1@)))
}

/// The JSON text `serde_json::to_vec` writes for a map from package names to
/// lists of versions, given its entries in key order.
pub uninterp spec fn payload_json_of(entries: Seq<(Seq<char>, Seq<Seq<char>>)>) -> Seq<u8>;

/// `serde_json::to_vec` on the payload as a `BTreeMap` of names to version
/// lists. Such a map of strings always serialises, so the empty result for an
/// error is never returned.
#[verifier::external_body]
fn payload_json(payload: &StrMap<Vec<String>>) -> (r: Vec<u8>)
    ensures
        r@ == payload_json_of(payload_entries(payload@)),
{
    let map: std::collections::BTreeMap<&String, &Vec<String>> = payload.entries().iter().map(|(k, v)| (k, v)).collect();
    serde_json::to_vec(&map).unwrap_or_default()
}

/// The body of the bulk advisory request: the payload as JSON, gzip-compressed.
pub fn audit_request_body(payload: &StrMap<Vec<String>>) -> (r: Vec<u8>)
    ensures
        r@ == gzip_of(payload_json_of(payload_entries(payload@))),
{
    let json = payload_json(payload);
    gzip_compress(json.as_slice())
}

/// The endpoint of the bulk advisory request on a registry.
pub fn audit_url(registry_url: &str) -> (r: String)
    ensures
        r@ == registry_url@ + "/-/npm/v1/security/advisories/bulk"@,
{
    string_of(concat(&chars_of(registry_url), &chars_of("/-/npm/v1/security/advisories/bulk")))
}

} // verus!
