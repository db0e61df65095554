//! npm's `os` and `cpu` package fields, matched against the host platform.
//! The host's names (Rust's `std::env::consts::OS` and `ARCH`) are passed in.
use vstd::prelude::*;

use crate::text::{chars_eq, chars_of, has_prefix};

verus! {

/// npm's name for a Rust operating-system name.
pub open spec fn npm_os(os: Seq<char>) -> Seq<char> {
    if os == "windows"@ {
        "win32"@
    } else if os == "macos"@ {
        "darwin"@
    } else {
        os
    }
}

/// npm's name for a Rust architecture name.
pub open spec fn npm_cpu(arch: Seq<char>) -> Seq<char> {
    if arch == "x86_64"@ {
        "x64"@
    } else if arch == "aarch64"@ {
        "arm64"@
    } else if arch == "x86"@ {
        "ia32"@
    } else {
        arch
    }
}

/// npm's rule for an `os` / `cpu` list: no list or an empty one allows every
/// platform; a list with a `!name` entry allows every platform it does not
/// negate; otherwise the platform must be listed.
pub open spec fn list_allows(list: Option<Seq<String>>, current: Seq<char>) -> bool {
    match list {
        None => true,
        Some(l) => if l.len() == 0 {
            true
        } else if exists|i: int| 0 <= i < l.len() && has_prefix(#[trigger] l[i]@, "!"@) {
            !exists|i: int| 0 <= i < l.len() && #[trigger] l[i]@ == seq!['!'] + current
        } else {
            exists|i: int| 0 <= i < l.len() && #[trigger] l[i]@ == current
        },
    }
}

pub open spec fn opt_seq(o: Option<Vec<String>>) -> Option<Seq<String>> {
    match o {
        Some(v) => Some(v@),
        None => None,
    }
}

pub fn normalize_os(os: &str) -> (r: &str)
    ensures
        r@ == npm_os(os@),
{
    let s = chars_of(os);
    if chars_eq(&s, &chars_of("windows")) {
        "win32"
    } else if chars_eq(&s, &chars_of("macos")) {
        "darwin"
    } else {
        os
    }
}

pub fn normalize_cpu(arch: &str) -> (r: &str)
    ensures
        r@ == npm_cpu(arch@),
{
    let s = chars_of(arch);
    if chars_eq(&s, &chars_of("x86_64")) {
        "x64"
    } else if chars_eq(&s, &chars_of("aarch64")) {
        "arm64"
    } else if chars_eq(&s, &chars_of("x86")) {
        "ia32"
    } else {
        arch
    }
}

fn allowed_by(list: &Option<Vec<String>>, current: &str) -> (r: bool)
    ensures
        r == list_allows(opt_seq(*list), current@),
{
    let l = match list {
        Some(l) => l,
        None => {
            return true;
        },
    };
    if l.len() == 0 {
        return true;
    }
    let cur = chars_of(current);
    let mut neg: Vec<char> = Vec::new();
    neg.push('!');
    let mut j: usize = 0;
    while j < cur.len()
        invariant
            j <= cur@.len(),
            neg@ == seq!['!'] + cur@.subrange(0, j as int),
        decreases cur@.len() - j,
    {
        neg.push(cur[j]);
        j = j + 1;
    }
    assert(cur@.subrange(0, cur@.len() as int) =~= cur@);
    let mut has_neg = false;
    let mut i: usize = 0;
    while i < l.len()
        invariant
            i <= l@.len(),
            has_neg == exists|k: int| 0 <= k < i && has_prefix(#[trigger] l@[k]@, "!"@),
        decreases l@.len() - i,
    {
        let item = chars_of(l[i].as_str());
        proof {
            reveal_strlit("!");
        }
        if item.len() > 0 && item[0] == '!' {
            assert(item@.subrange(0, 1) =~= "!"@);
            has_neg = true;
        } else {
            proof {
                if item@.len() > 0 {
                    assert(item@.subrange(0, 1)[0] == item@[0]);
                }
            }
            assert(!has_prefix(item@, "!"@));
        }
        i = i + 1;
    }
    let mut found = false;
    let mut i: usize = 0;
    let target = if has_neg {
        neg
    } else {
        cur
    };
    while i < l.len()
        invariant
            i <= l@.len(),
            found == exists|k: int| 0 <= k < i && #[trigger] l@[k]@ == target@,
        decreases l@.len() - i,
    {
        if chars_eq(&chars_of(l[i].as_str()), &target) {
            found = true;
        }
        i = i + 1;
    }
    if has_neg {
        !found
    } else {
        found
    }
}

/// Check if the target platform matches the package's `os` field in package.json.
pub fn is_os_supported(os_list: &Option<Vec<String>>, host_os: &str) -> (r: bool)
    ensures
        r == list_allows(opt_seq(*os_list), npm_os(host_os@)),
{
    allowed_by(os_list, normalize_os(host_os))
}

/// Check if the target CPU architecture matches the package's `cpu` field in package.json.
pub fn is_cpu_supported(cpu_list: &Option<Vec<String>>, host_arch: &str) -> (r: bool)
    ensures
        r == list_allows(opt_seq(*cpu_list), npm_cpu(host_arch@)),
{
    allowed_by(cpu_list, normalize_cpu(host_arch))
}

} // verus!
