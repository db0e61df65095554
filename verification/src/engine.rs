//! Installing: the order packages are laid out in, where the content store
//! keeps them, which lifecycle scripts run, the command shims written for
//! their binaries, and how scripts are run. Files are written and processes
//! started by the program around the library.
use vstd::prelude::*;

use crate::hashing::{hex_encode, hex_of, sha256_digest, sha256_of};
use crate::resolver::ResolvedNode;
use crate::strmap::{has_key, StrMap};
use crate::network::tarball::{join_parts, named_parts};
use crate::text::{chars_of, concat, has_prefix, replace_char, replace_char_with, split_all, string_of};
use vstd::string::StringSliceAdditionalSpecFns;

verus! {

pub const SH_SHIM_HEAD: &'static str = "#!/bin/sh\nbasedir=$(dirname \"$(echo \"$0\" | sed -e 's,\\\\,/,g')\")\n\ncase `uname` in\n    *CYGWIN*|*MINGW*|*MSYS*)\n        if command -v cygpath > /dev/null 2>&1; then\n            basedir=`cygpath -w \"$basedir\"`\n        fi\n    ;;\nesac\n\nif [ -x \"$basedir/node\" ]; then\n  exec \"$basedir/node\" \"$basedir/";

pub const SH_SHIM_MID: &'static str = "\" \"$@\"\nelse\n  exec node \"$basedir/";

pub const SH_SHIM_TAIL: &'static str = "\" \"$@\"\nfi\n";

pub const CMD_SHIM_HEAD: &'static str = "@ECHO off\nGOTO start\n:find_dp0\nSET dp0=%~dp0\nEXIT /b\n:start\nSETLOCAL\nCALL :find_dp0\n\nIF EXIST \"%dp0%\\node.exe\" (\n  SET \"_prog=%dp0%\\node.exe\"\n) ELSE (\n  SET \"_prog=node\"\n  SET PATHEXT=%PATHEXT:;.JS;=;%\n)\n\nendLocal & goto #_undefined_# 2>NUL || title %COMSPEC% & \"%_prog%\"  \"%dp0%\\";

pub const CMD_SHIM_TAIL: &'static str = "\" %*\n";

pub const PS1_SHIM_HEAD: &'static str = "#!/usr/bin/env pwsh\n$basedir = Split-Path $MyInvocation.MyCommand.Definition -Parent\n\n$exe = \"\"\nif ($PSVersionTable.PSVersion -lt \"6.0\" -or $IsWindows) {\n  # Windows\n  if (Test-Path \"$basedir/node.exe\") {\n    $exe = \"$basedir/node.exe\"\n  } else {\n    $exe = \"node\"\n  }\n} else {\n  # Non-Windows\n  if (Test-Path \"$basedir/node\") {\n    $exe = \"$basedir/node\"\n  } else {\n    $exe = \"node\"\n  }\n}\n\n$ret = 0\nif (Test-Path \"$basedir/";

pub const PS1_SHIM_MID1: &'static str = "\") {\n  & \"$exe\" \"$basedir/";

pub const PS1_SHIM_MID2: &'static str = "\" $args\n  $ret = $LASTEXITCODE\n} else {\n  & \"$exe\" \"";

pub const PS1_SHIM_TAIL: &'static str = "\" $args\n  $ret = $LASTEXITCODE\n}\nexit $ret\n";


/// How many times `c` occurs in `s`.
pub open spec fn count_char(s: Seq<char>, c: char) -> nat
    decreases s.len(),
{
    if s.len() == 0 {
        0
    } else {
        count_char(s.drop_last(), c) + if s.last() == c {
            1nat
        } else {
            0nat
        }
    }
}

/// How deep an install path is: the number of `/` in it.
pub open spec fn depth(path: Seq<char>) -> nat {
    count_char(path, '/')
}

/// The install paths of the given depth, in key order.
pub open spec fn paths_at(entries: Seq<(String, ResolvedNode)>, d: nat) -> Seq<Seq<char>>
    decreases entries.len(),
{
    if entries.len() == 0 {
        Seq::empty()
    } else {
        let rest = paths_at(entries.drop_last(), d);
        if depth(entries.last().1.install_path@) == d {
            rest.push(entries.last().0@)
        } else {
            rest
        }
    }
}

/// Some group is for depth `d`.
pub open spec fn has_group(groups: Seq<(usize, Vec<String>)>, d: nat) -> bool {
    exists|g: int| 0 <= g < groups.len() && groups[g].0 == d
}

fn depth_of(s: &String) -> (n: usize)
    ensures
        n == depth(s@),
{
    let v = chars_of(s.as_str());
    let mut n: usize = 0;
    let mut i: usize = 0;
    while i < v.len()
        invariant
            i <= v@.len(),
            n == count_char(v@.subrange(0, i as int), '/'),
            n <= i,
        decreases v@.len() - i,
    {
        let ghost sub = v@.subrange(0, i + 1);
        assert(sub.drop_last() =~= v@.subrange(0, i as int));
        if v[i] == '/' {
            n = n + 1;
        }
        i = i + 1;
    }
    assert(v@.subrange(0, v@.len() as int) =~= v@);
    n
}

/// The install paths grouped by depth, shallowest first, so that a package is
/// laid out before what is installed inside it; within a group in key order.
pub fn install_groups(resolved: &StrMap<ResolvedNode>) -> (r: Vec<(usize, Vec<String>)>)
    ensures
        forall|g: int|
            0 <= g < r@.len() ==> (#[trigger] r@[g]).1@.map_values(|s: String| s@) == paths_at(
                resolved@,
                r@[g].0 as nat,
            ) && r@[g].1@.len() > 0,
        forall|g: int, h: int| 0 <= g < h < r@.len() ==> (#[trigger] r@[g]).0 < (#[trigger] r@[h]).0,
        forall|j: int|
            0 <= j < resolved@.len() ==> has_group(r@, depth((#[trigger] resolved@[j]).1.install_path@)),
{
    let es = resolved.entries();
    let n = es.len();
    let mut depths: Vec<usize> = Vec::new();
    let mut i: usize = 0;
    while i < n
        invariant
            i <= n,
            n == es@.len(),
            depths@.len() == i,
            forall|j: int| 0 <= j < i ==> depths@[j] == depth(es@[j].1.install_path@),
        decreases n - i,
    {
        depths.push(depth_of(&es[i].1.install_path));
        i = i + 1;
    }
    let mut max: usize = 0;
    let mut k: usize = 0;
    while k < n
        invariant
            k <= n,
            depths@.len() == n,
            forall|j: int| 0 <= j < k ==> depths@[j] <= max,
        decreases n - k,
    {
        if depths[k] > max {
            max = depths[k];
        }
        k = k + 1;
    }
    let mut groups: Vec<(usize, Vec<String>)> = Vec::new();
    let mut d: usize = 0;
    loop
        invariant_except_break
            forall|g: int| 0 <= g < groups@.len() ==> (#[trigger] groups@[g]).0 < d,
            forall|j: int| 0 <= j < n && #[trigger] depths@[j] < d ==> has_group(groups@, depths@[j] as nat),
        invariant
            n == es@.len(),
            es@ == resolved@,
            depths@.len() == n,
            d <= max,
            forall|j: int| 0 <= j < n ==> depths@[j] == depth(es@[j].1.install_path@),
            forall|j: int| 0 <= j < n ==> depths@[j] <= max,
            forall|g: int|
                0 <= g < groups@.len() ==> (#[trigger] groups@[g]).1@.map_values(|s: String| s@)
                    == paths_at(resolved@, groups@[g].0 as nat) && groups@[g].1@.len() > 0,
            forall|g: int, h: int|
                0 <= g < h < groups@.len() ==> (#[trigger] groups@[g]).0 < (#[trigger] groups@[h]).0,
        ensures
            forall|g: int|
                0 <= g < groups@.len() ==> (#[trigger] groups@[g]).1@.map_values(|s: String| s@)
                    == paths_at(resolved@, groups@[g].0 as nat) && groups@[g].1@.len() > 0,
            forall|g: int, h: int|
                0 <= g < h < groups@.len() ==> (#[trigger] groups@[g]).0 < (#[trigger] groups@[h]).0,
            forall|j: int| 0 <= j < n ==> has_group(groups@, #[trigger] depths@[j] as nat),
        decreases max - d,
    {
        let mut paths: Vec<String> = Vec::new();
        let mut j: usize = 0;
        assert(es@.subrange(0, 0) =~= Seq::<(String, ResolvedNode)>::empty());
        while j < n
            invariant
                j <= n,
                n == es@.len(),
                es@ == resolved@,
                depths@.len() == n,
                forall|q: int| 0 <= q < n ==> depths@[q] == depth(es@[q].1.install_path@),
                paths@.map_values(|s: String| s@) == paths_at(es@.subrange(0, j as int), d as nat),
                paths@.len() > 0 <==> exists|q: int| 0 <= q < j && depths@[q] == d,
            decreases n - j,
        {
            let ghost sub = es@.subrange(0, j + 1);
            assert(sub.drop_last() =~= es@.subrange(0, j as int));
            assert(sub.last() == es@[j as int]);
            if depths[j] == d {
                let ghost before = paths@.map_values(|s: String| s@);
                paths.push(es[j].0.clone());
                assert(paths@.map_values(|s: String| s@) =~= before.push(es@[j as int].0@));
            }
            j = j + 1;
        }
        assert(es@.subrange(0, n as int) =~= es@);
        let ghost before = groups@;
        if paths.len() > 0 {
            groups.push((d, paths));
            assert(groups@[groups@.len() - 1].0 == d);
        }
        assert forall|q: int| 0 <= q < n && #[trigger] depths@[q] < d + 1 implies has_group(groups@, depths@[q] as nat) by {
            if depths@[q] < d {
                assert(has_group(before, depths@[q] as nat));
                let g = choose|g: int| 0 <= g < before.len() && before[g].0 == depths@[q];
                assert(groups@[g] == before[g]);
            } else {
                assert(paths_at(resolved@, d as nat).len() > 0) by {
                    lemma_paths_at_has(es@, q);
                }
                assert(groups@[groups@.len() - 1].0 == d);
            }
        }
        if d == max {
            assert forall|j: int| 0 <= j < n implies has_group(groups@, #[trigger] depths@[j] as nat) by {
                assert(depths@[j] < d + 1);
            }
            break;
        }
        d = d + 1;
    }
    assert forall|j: int| 0 <= j < resolved@.len() implies has_group(groups@, depth((#[trigger] resolved@[j]).1.install_path@)) by {
        assert(depths@[j] == depth(es@[j].1.install_path@));
    }
    groups
}

proof fn lemma_paths_at_has(entries: Seq<(String, ResolvedNode)>, w: int)
    requires
        0 <= w < entries.len(),
    ensures
        paths_at(entries, depth(entries[w].1.install_path@)).len() > 0,
    decreases entries.len(),
{
    if w < entries.len() - 1 {
        lemma_paths_at_has(entries.drop_last(), w);
    }
}

fn text(s: &str) -> (r: String)
    ensures
        r@ == s@,
{
    string_of(chars_of(s))
}

fn join(a: &str, b: &str) -> (r: String)
    ensures
        r@ == a@ + b@,
{
    string_of(concat(&chars_of(a), &chars_of(b)))
}

/// The folder a package version is extracted to in the content store:
/// its name with `/` written `+`, `@`, and its version.
pub fn store_entry_name(name: &str, version: &str) -> (r: String)
    ensures
        r@ == replace_char(name@, '/', "+"@) + "@"@ + version@,
{
    let n = replace_char_with(&chars_of(name), '/', &chars_of("+"));
    let a = concat(&n, &chars_of("@"));
    string_of(concat(&a, &chars_of(version)))
}

/// The lifecycle scripts an installed package defines, in the order they run.
pub open spec fn lifecycle_of(scripts: Option<StrMap<String>>) -> Seq<Seq<char>> {
    match scripts {
        Some(m) => {
            let a = if has_key(m@, "preinstall"@) {
                seq!["preinstall"@]
            } else {
                Seq::empty()
            };
            let b = if has_key(m@, "install"@) {
                seq!["install"@]
            } else {
                Seq::empty()
            };
            let c = if has_key(m@, "postinstall"@) {
                seq!["postinstall"@]
            } else {
                Seq::empty()
            };
            a + b + c
        },
        None => Seq::empty(),
    }
}

pub fn lifecycle_scripts(scripts: &Option<StrMap<String>>) -> (r: Vec<String>)
    ensures
        r@.map_values(|s: String| s@) == lifecycle_of(*scripts),
{
    let mut out: Vec<String> = Vec::new();
    if let Some(m) = scripts {
        let ghost v0 = out@.map_values(|s: String| s@);
        if m.contains_key(&chars_of("preinstall")) {
            out.push(text("preinstall"));
        }
        let ghost v1 = out@.map_values(|s: String| s@);
        if m.contains_key(&chars_of("install")) {
            out.push(text("install"));
        }
        let ghost v2 = out@.map_values(|s: String| s@);
        if m.contains_key(&chars_of("postinstall")) {
            out.push(text("postinstall"));
        }
        assert(out@.map_values(|s: String| s@) =~= lifecycle_of(*scripts));
    } else {
        assert(out@.map_values(|s: String| s@) =~= Seq::<Seq<char>>::empty());
    }
    out
}

/// The `/`-separated pieces of a path that name something (empty ones dropped).
pub open spec fn path_pieces(p: Seq<char>) -> Seq<Seq<char>> {
    named_parts(split_all(p, "/"@))
}

/// How many leading pieces two paths share.
pub open spec fn common_len(a: Seq<Seq<char>>, b: Seq<Seq<char>>) -> nat
    decreases a.len(),
{
    if a.len() == 0 || b.len() == 0 || a[0] != b[0] {
        0
    } else {
        1 + common_len(a.drop_first(), b.drop_first())
    }
}

/// A path that every platform splits the same way: only `/` separates, there
/// is no `\`, no `:` (so no drive), no leading `//` (so no UNC share), and no
/// `.` or `..` piece.
pub open spec fn plain_slash_path(p: Seq<char>) -> bool {
    &&& !p.contains('\\')
    &&& !p.contains(':')
    &&& !has_prefix(p, "//"@)
    &&& forall|k: int|
        0 <= k < split_all(p, "/"@).len() ==> #[trigger] split_all(p, "/"@)[k] != "."@ && split_all(
            p,
            "/"@,
        )[k] != ".."@
}

/// Two such paths, both rooted at `/` or both not.
pub open spec fn diff_applies(path: Seq<char>, base: Seq<char>) -> bool {
    plain_slash_path(path) && plain_slash_path(base) && has_prefix(path, "/"@) == has_prefix(base, "/"@)
}

/// The path from `base` to `path`: a `..` for each piece of `base` after the
/// pieces they share, then the rest of `path`, joined with `/`.
pub open spec fn relative_text(path: Seq<char>, base: Seq<char>) -> Seq<char> {
    let a = path_pieces(path);
    let b = path_pieces(base);
    let k = common_len(a, b);
    join_parts(Seq::new((b.len() - k) as nat, |i: int| ".."@) + a.subrange(k as int, a.len() as int))
}

/// `pathdiff::diff_paths` on two paths given as text, its result read back as
/// text. For paths that every platform splits alike (`diff_applies`) the
/// result is `relative_text`, with the platform's separator (`/`, or `\` on
/// Windows) between pieces. For other paths (with `\`, drive or UNC
/// prefixes, `.` or `..` pieces, or one rooted and one not) how the platform
/// reads them decides, and nothing is stated.
#[verifier::external_body]
fn relative_path(path: &str, base: &str) -> (r: Option<String>)
    ensures
        match r {
            Some(t) => diff_applies(path@, base@) ==> replace_char(t@, '\\', "/"@) == relative_text(path@, base@),
            None => !diff_applies(path@, base@),
        },
{
    match pathdiff::diff_paths(path, base) {
        Some(p) => Some(p.to_string_lossy().into_owned()),
        None => None,
    }
}

/// The script a shim runs: its path relative to the shim's directory when
/// there is such a path, else `target`; with `/` between folders.
pub open spec fn shim_target_text(relative: Option<Seq<char>>, target: Seq<char>) -> Seq<char> {
    let p = match relative {
        Some(d) => d,
        None => target,
    };
    replace_char(p, '\\', "/"@)
}

/// No `\` is left where every `\` is replaced by text without one.
proof fn lemma_replace_removes(s: Seq<char>, from: char, to: Seq<char>)
    requires
        !to.contains(from),
    ensures
        !replace_char(s, from, to).contains(from),
    decreases s.len(),
{
    if s.len() > 0 {
        lemma_replace_removes(s.drop_first(), from, to);
        let head = if s[0] == from {
            to
        } else {
            seq![s[0]]
        };
        let r = replace_char(s, from, to);
        let t = replace_char(s.drop_first(), from, to);
        assert(r == head + t);
        if r.contains(from) {
            let k = choose|k: int| 0 <= k < r.len() && r[k] == from;
            if k < head.len() {
                assert(head[k] == from);
            } else {
                assert(t[k - head.len()] == from);
            }
        }
    }
}

/// The shim text for a binary at `target`, given the path relative to the
/// shims' directory that was computed for it, if any.
pub fn shim_target_from(relative: Option<String>, target: &str) -> (r: String)
    ensures
        r@ == shim_target_text(
            match relative {
                Some(d) => Some(d@),
                None => None,
            },
            target@,
        ),
{
    let p = match relative {
        Some(d) => chars_of(d.as_str()),
        None => chars_of(target),
    };
    string_of(replace_char_with(&p, '\\', &chars_of("/")))
}

/// The script a shim runs, relative to the shim's directory where the
/// platform can compute that path (see `shim_target_from`); it never holds a
/// `\`. For paths every platform splits alike it is `relative_text`.
pub fn shim_target(target: &str, bin_dir: &str) -> (r: String)
    ensures
        diff_applies(target@, bin_dir@) ==> r@ == relative_text(target@, bin_dir@),
        exists|rel: Option<Seq<char>>| r@ == shim_target_text(rel, target@),
        !r@.contains('\\'),
{
    let rel = relative_path(target, bin_dir);
    let ghost rv = match &rel {
        Some(d) => Some(d@),
        None => None::<Seq<char>>,
    };
    let r = shim_target_from(rel, target);
    proof {
        reveal_strlit("/");
        let p = match rv {
            Some(d) => d,
            None => target@,
        };
        lemma_replace_removes(p, '\\', "/"@);
        assert(r@ == shim_target_text(rv, target@));
    }
    r
}

/// The POSIX shell shim for a script.
pub open spec fn sh_shim_text(t: Seq<char>) -> Seq<char> {
    SH_SHIM_HEAD@ + t + SH_SHIM_MID@ + t + SH_SHIM_TAIL@
}

/// The Windows `.cmd` shim for a script, given with `\` between folders.
pub open spec fn cmd_shim_text(t: Seq<char>) -> Seq<char> {
    CMD_SHIM_HEAD@ + t + CMD_SHIM_TAIL@
}

/// The PowerShell shim for a script.
pub open spec fn ps1_shim_text(t: Seq<char>) -> Seq<char> {
    PS1_SHIM_HEAD@ + t + PS1_SHIM_MID1@ + t + PS1_SHIM_MID2@ + t + PS1_SHIM_TAIL@
}

/// The three shims for a binary whose script is at `target` (relative to the
/// shims' directory): shell, `.cmd` and `.ps1`.
pub fn shim_scripts(target: &str) -> (r: (String, String, String))
    ensures
        r.0@ == sh_shim_text(target@),
        r.1@ == cmd_shim_text(replace_char(target@, '/', "\\"@)),
        r.2@ == ps1_shim_text(target@),
{
    let t = chars_of(target);
    let sh = concat(&concat(&concat(&concat(&chars_of(SH_SHIM_HEAD), &t), &chars_of(SH_SHIM_MID)), &t), &chars_of(SH_SHIM_TAIL));
    let win = replace_char_with(&t, '/', &chars_of("\\"));
    let cmd = concat(&concat(&chars_of(CMD_SHIM_HEAD), &win), &chars_of(CMD_SHIM_TAIL));
    let ps = concat(
        &concat(&concat(&concat(&concat(&concat(&chars_of(PS1_SHIM_HEAD), &t), &chars_of(PS1_SHIM_MID1)), &t), &chars_of(PS1_SHIM_MID2)), &t),
        &chars_of(PS1_SHIM_TAIL),
    );
    (string_of(sh), string_of(cmd), string_of(ps))
}

/// The command line a script runs: its text, and the extra arguments after a space each.
pub open spec fn joined_args(args: Seq<Seq<char>>) -> Seq<char>
    decreases args.len(),
{
    if args.len() == 0 {
        Seq::empty()
    } else if args.len() == 1 {
        args[0]
    } else {
        joined_args(args.drop_last()) + " "@ + args.last()
    }
}

pub open spec fn command_line(script: Seq<char>, args: Seq<Seq<char>>) -> Seq<char> {
    if args.len() == 0 {
        script
    } else {
        script + " "@ + joined_args(args)
    }
}

pub fn full_command(script: &str, args: &[String]) -> (r: String)
    ensures
        r@ == command_line(script@, args@.map_values(|s: String| s@)),
{
    let ghost av = args@.map_values(|s: String| s@);
    if args.len() == 0 {
        return text(script);
    }
    let mut joined = chars_of(args[0].as_str());
    let mut i: usize = 1;
    assert(av.subrange(0, 1) =~= seq![av[0]]);
    while i < args.len()
        invariant
            1 <= i <= args@.len(),
            av == args@.map_values(|s: String| s@),
            joined@ == joined_args(av.subrange(0, i as int)),
        decreases args@.len() - i,
    {
        let ghost sub = av.subrange(0, i + 1);
        assert(sub.drop_last() =~= av.subrange(0, i as int));
        assert(sub.last() == args@[i as int]@);
        joined = concat(&concat(&joined, &chars_of(" ")), &chars_of(args[i].as_str()));
        i = i + 1;
    }
    assert(av.subrange(0, args@.len() as int) =~= av);
    string_of(concat(&concat(&chars_of(script), &chars_of(" ")), &joined))
}

/// The line announcing a script: `> name@version script`.
pub fn script_banner(name: &Option<String>, version: &Option<String>, script: &str) -> (r: String)
    ensures
        r@ == "> "@ + match *name {
            Some(n) => n@,
            None => Seq::empty(),
        } + "@"@ + match *version {
            Some(v) => v@,
            None => Seq::empty(),
        } + " "@ + script@,
{
    proof {
        reveal_strlit("");
    }
    let n = match name {
        Some(n) => chars_of(n.as_str()),
        None => chars_of(""),
    };
    let v = match version {
        Some(v) => chars_of(v.as_str()),
        None => chars_of(""),
    };
    let a = concat(&concat(&chars_of("> "), &n), &chars_of("@"));
    let b = concat(&concat(&a, &v), &chars_of(" "));
    string_of(concat(&b, &chars_of(script)))
}

/// `PATH` with the project's binaries first, joined by `separator`
/// (`:` on Unix, `;` on Windows).
pub fn extended_path(bin_dir: &str, current: &str, separator: &str) -> (r: String)
    ensures
        r@ == bin_dir@ + separator@ + current@,
{
    string_of(concat(&concat(&chars_of(bin_dir), &chars_of(separator)), &chars_of(current)))
}

/// The cache folder of a git repository: the first 16 hexadecimal digits of
/// the SHA-256 digest of its URL.
pub fn git_cache_name(url: &str) -> (r: String)
    ensures
        r@ == hex_of(sha256_of(url.spec_bytes())).subrange(0, 16),
{
    let d = sha256_digest(url.as_bytes());
    let h = chars_of(hex_encode(d.as_slice()).as_str());
    proof {
        lemma_hex_len(sha256_of(url.spec_bytes()));
    }
    string_of(crate::text::slice_of(&h, 0, 16))
}

proof fn lemma_hex_len(data: Seq<u8>)
    ensures
        hex_of(data).len() == 2 * data.len(),
    decreases data.len(),
{
    if data.len() > 0 {
        lemma_hex_len(data.drop_last());
    }
}

/// Milliseconds to wait before retry `attempt` (0 to 3) of a file operation: 15, 30, 60, 120.
pub fn file_retry_delay_ms(attempt: u32) -> (ms: u64)
    requires
        attempt < 4,
    ensures
        ms == 15 * vstd::arithmetic::power2::pow2(attempt as nat),
{
    proof {
        vstd::arithmetic::power2::lemma2_to64();
    }
    if attempt == 0 {
        15
    } else if attempt == 1 {
        30
    } else if attempt == 2 {
        60
    } else {
        120
    }
}

/// Why a node cannot be laid out.
pub enum InstallError {
    /// A registry package without a tarball URL: its name and version.
    EmptyResolvedUrl { name: String, version: String },
}

/// A package that is not copied from a local directory needs a tarball URL.
pub fn check_installable(node: &ResolvedNode) -> (r: Result<(), InstallError>)
    ensures
        r is Err <==> (!node.is_local_file && node.resolved_url@.len() == 0),
        r matches Err(InstallError::EmptyResolvedUrl { name, version }) ==> name@ == node.name@
            && version@ == node.version@,
{
    if !node.is_local_file && chars_of(node.resolved_url.as_str()).len() == 0 {
        Err(InstallError::EmptyResolvedUrl { name: node.name.clone(), version: node.version.clone() })
    } else {
        Ok(())
    }
}

/// How one resolved package is laid out in its install directory.
pub enum InstallStep {
    /// Copy the directory the package was found in (nothing when none is recorded).
    CopyLocal { source: Option<String> },
    /// Download the tarball at `url`, check it against `integrity`, and extract
    /// it: when `store` is set, into that entry of the content store first (to
    /// be hard-linked into place), else straight into place.
    Fetch { url: String, integrity: String, store: Option<String> },
}

/// The step that lays out `node`; in content-store (`hardlink`) mode a
/// downloaded package goes through its store entry.
pub fn install_step(node: &ResolvedNode, hardlink: bool) -> (r: Result<InstallStep, InstallError>)
    ensures
        node.is_local_file ==> (r matches Ok(InstallStep::CopyLocal { source }) && match source {
            Some(s) => node.local_source_path matches Some(p) && s@ == p@,
            None => node.local_source_path is None,
        }),
        !node.is_local_file && node.resolved_url@.len() == 0 ==> (r matches Err(
            InstallError::EmptyResolvedUrl { name, version },
        ) && name@ == node.name@ && version@ == node.version@),
        !node.is_local_file && node.resolved_url@.len() > 0 ==> (r matches Ok(
            InstallStep::Fetch { url, integrity, store },
        ) && url@ == node.resolved_url@ && integrity@ == node.integrity@ && if hardlink {
            store matches Some(e) && e@ == replace_char(node.name@, '/', "+"@) + "@"@ + node.version@
        } else {
            store is None
        }),
{
    if let Err(e) = check_installable(node) {
        return Err(e);
    }
    if node.is_local_file {
        let source = match &node.local_source_path {
            Some(p) => Some(p.clone()),
            None => None,
        };
        return Ok(InstallStep::CopyLocal { source });
    }
    let store = if hardlink {
        Some(store_entry_name(node.name.as_str(), node.version.as_str()))
    } else {
        None
    };
    Ok(InstallStep::Fetch { url: node.resolved_url.clone(), integrity: node.integrity.clone(), store })
}

} // verus!
