//! Package tarballs: checking their integrity string, reading the manifest
//! inside, and where each archive entry may be written. Unpacking onto disk is
//! done by the program around the library.
use vstd::prelude::*;

use crate::hashing::{
    base64_encode, base64_of, hex_encode, hex_of, is_base64_char, sha1_digest, sha1_of,
    sha512_digest, sha512_of,
};
use crate::text::{
    chars_eq, chars_of, concat, find_seq, has_prefix, is_ws, lemma_find_single, lemma_trim_end_at,
    lemma_trim_start_at, split_all, split_pieces, string_of, strip_prefix, trim, trim_chars,
};

verus! {

/// Why a tarball's content was refused.
#[derive(Debug, Clone, PartialEq, Eq)]
pub enum TarballError {
    /// The digest differs from the integrity string: algorithm, expected, actual.
    IntegrityMismatch { algorithm: String, expected: String, actual: String },
    /// An archive entry would be written outside the target directory.
    UnsafeEntry { path: String },
    /// There is no integrity string, or it names an algorithm other than
    /// `sha512` and `sha1`: the (trimmed) string.
    UnknownIntegrity { integrity: String },
    /// The bytes are not a gzip-compressed tar archive that reads to its end.
    Unreadable,
}

/// Whether `bytes` agree with an integrity string: it must name `sha512` or
/// `sha1` and give the digest (a `sha1` digest may be written in base64 or in
/// hexadecimal). An empty string, or one of another algorithm, accepts nothing.
pub open spec fn integrity_holds(bytes: Seq<u8>, integrity: Seq<char>) -> bool {
    let t = trim(integrity);
    if has_prefix(t, "sha512-"@) {
        base64_of(sha512_of(bytes)) == t.subrange(7, t.len() as int)
    } else if has_prefix(t, "sha1-"@) {
        let expected = t.subrange(5, t.len() as int);
        base64_of(sha1_of(bytes)) == expected || hex_of(sha1_of(bytes)) == expected
    } else {
        false
    }
}

/// The error `verify_integrity` reports when the check fails: the digest that
/// was expected and the one computed (in base64) for a known algorithm, else
/// the integrity string itself.
pub open spec fn integrity_refusal(bytes: Seq<u8>, integrity: Seq<char>, e: TarballError) -> bool {
    let t = trim(integrity);
    if has_prefix(t, "sha512-"@) {
        e matches TarballError::IntegrityMismatch { algorithm, expected, actual } && algorithm@
            == "sha512"@ && expected@ == t.subrange(7, t.len() as int) && actual@ == base64_of(
            sha512_of(bytes),
        )
    } else if has_prefix(t, "sha1-"@) {
        e matches TarballError::IntegrityMismatch { algorithm, expected, actual } && algorithm@
            == "sha1"@ && expected@ == t.subrange(5, t.len() as int) && actual@ == base64_of(
            sha1_of(bytes),
        )
    } else {
        e matches TarballError::UnknownIntegrity { integrity: i } && i@ == t
    }
}

/// Verify integrity string (e.g. `sha512-...` or `sha1-...`)
pub fn verify_integrity(bytes: &[u8], integrity_str: &str) -> (r: Result<(), TarballError>)
    ensures
        r is Ok == integrity_holds(bytes@, integrity_str@),
        r matches Err(e) ==> integrity_refusal(bytes@, integrity_str@, e),
{
    let t = trim_chars(&chars_of(integrity_str));
    proof {
        reveal_strlit("sha512-");
        reveal_strlit("sha1-");
    }
    match strip_prefix(&t, &chars_of("sha512-")) {
        Some(expected) => {
            let digest = sha512_digest(bytes);
            let actual = base64_encode(digest.as_slice());
            if chars_eq(&chars_of(actual.as_str()), &expected) {
                Ok(())
            } else {
                Err(
                    TarballError::IntegrityMismatch {
                        algorithm: string_of(chars_of("sha512")),
                        expected: string_of(expected),
                        actual,
                    },
                )
            }
        },
        None => match strip_prefix(&t, &chars_of("sha1-")) {
            Some(expected) => {
                let digest = sha1_digest(bytes);
                let actual_b64 = base64_encode(digest.as_slice());
                let actual_hex = hex_encode(digest.as_slice());
                if chars_eq(&chars_of(actual_b64.as_str()), &expected) || chars_eq(
                    &chars_of(actual_hex.as_str()),
                    &expected,
                ) {
                    Ok(())
                } else {
                    Err(
                        TarballError::IntegrityMismatch {
                            algorithm: string_of(chars_of("sha1")),
                            expected: string_of(expected),
                            actual: actual_b64,
                        },
                    )
                }
            },
            None => Err(TarballError::UnknownIntegrity { integrity: string_of(t) }),
        },
    }
}

/// The integrity string npm records for a tarball: `sha512-` and the base64
/// digest. The bytes always pass the check against it.
pub fn sha512_integrity(bytes: &[u8]) -> (r: String)
    ensures
        r@ == "sha512-"@ + base64_of(sha512_of(bytes@)),
        integrity_holds(bytes@, r@),
{
    let digest = sha512_digest(bytes);
    let b = base64_encode(digest.as_slice());
    let r = string_of(concat(&chars_of("sha512-"), &chars_of(b.as_str())));
    proof {
        reveal_strlit("sha512-");
        reveal_strlit("sha1-");
        let s = r@;
        assert(!is_ws(s[0]));
        assert(!is_ws(s.last())) by {
            if b@.len() > 0 {
                assert(s.last() == b@[b@.len() - 1]);
                assert(is_base64_char(b@[b@.len() - 1]));
            }
        }
        lemma_trim_start_at(s, 0);
        assert(s.subrange(0, s.len() as int) =~= s);
        lemma_trim_end_at(s, s.len() as int);
        assert(trim(s) == s);
        assert(s.subrange(0, 7) =~= "sha512-"@);
        assert(s.subrange(7, s.len() as int) =~= b@);
    }
    r
}

/// The components of an entry path that name something: not empty, not `.`.
pub open spec fn named_parts(parts: Seq<Seq<char>>) -> Seq<Seq<char>>
    decreases parts.len(),
{
    if parts.len() == 0 {
        Seq::empty()
    } else if parts[0].len() == 0 || parts[0] == "."@ {
        named_parts(parts.drop_first())
    } else {
        seq![parts[0]] + named_parts(parts.drop_first())
    }
}

/// The parts joined with `/` between them.
pub open spec fn join_parts(parts: Seq<Seq<char>>) -> Seq<char>
    decreases parts.len(),
{
    if parts.len() == 0 {
        Seq::empty()
    } else if parts.len() == 1 {
        parts[0]
    } else {
        parts[0] + "/"@ + join_parts(parts.drop_first())
    }
}

/// The entry path climbs out of its directory or is absolute.
pub open spec fn unsafe_entry(path: Seq<char>) -> bool {
    has_prefix(path, "/"@) || exists|k: int|
        0 <= k < split_all(path, "/"@).len() && bad_piece(#[trigger] split_all(path, "/"@)[k])
}

/// A drive prefix: a letter and `:` (`C:`).
pub open spec fn is_drive(q: Seq<char>) -> bool {
    q.len() >= 2 && (('a' <= q[0] && q[0] <= 'z') || ('A' <= q[0] && q[0] <= 'Z')) && q[1] == ':'
}

/// A `/`-separated piece of an entry path that Windows reads as leaving the
/// directory: it starts with `\` or a drive prefix, or one of its
/// `\`-separated parts is `..` (a plain `..` piece among them).
pub open spec fn bad_piece(q: Seq<char>) -> bool {
    has_prefix(q, "\\"@) || is_drive(q) || split_all(q, "\\"@).contains(".."@)
}

/// Whether a piece of an entry path is one `bad_piece` refuses.
fn is_bad_piece(q: &Vec<char>) -> (r: bool)
    ensures
        r == bad_piece(q@),
{
    proof {
        reveal_strlit("\\");
        reveal_strlit("..");
    }
    if crate::text::starts_with(q, &chars_of("\\")) {
        return true;
    }
    if q.len() >= 2 && (('a' <= q[0] && q[0] <= 'z') || ('A' <= q[0] && q[0] <= 'Z')) && q[1] == ':' {
        return true;
    }
    let parts = split_pieces(q, &chars_of("\\"));
    let ghost ps = parts@.map_values(|v: Vec<char>| v@);
    let mut i: usize = 0;
    while i < parts.len()
        invariant
            i <= parts@.len(),
            ps == parts@.map_values(|v: Vec<char>| v@),
            ps == split_all(q@, "\\"@),
            forall|k: int| 0 <= k < i ==> ps[k] != ".."@,
        decreases parts@.len() - i,
    {
        assert(ps[i as int] == parts@[i as int]@);
        if chars_eq(&parts[i], &chars_of("..")) {
            assert(ps.contains(".."@));
            return true;
        }
        i = i + 1;
    }
    proof {
        if ps.contains(".."@) {
            let k = choose|k: int| 0 <= k < ps.len() && ps[k] == ".."@;
            assert(ps[k] == ".."@);
        }
    }
    false
}

/// Where an archive entry lands relative to the target directory: the leading
/// `package` folder of npm tarballs is dropped; `None` when nothing is left.
pub open spec fn entry_destination(path: Seq<char>) -> Option<Seq<char>> {
    let named = named_parts(split_all(path, "/"@));
    let leads_with_dot = path == "."@ || has_prefix(path, "./"@);
    let dest = if !leads_with_dot && named.len() > 0 && named[0] == "package"@ {
        join_parts(named.drop_first())
    } else {
        path
    };
    if dest.len() == 0 {
        None
    } else {
        Some(dest)
    }
}

/// No piece of a path split at `/` holds a `/`.
pub proof fn lemma_pieces_no_slash(s: Seq<char>)
    ensures
        forall|k: int|
            0 <= k < split_all(s, "/"@).len() ==> !(#[trigger] split_all(s, "/"@)[k]).contains('/'),
    decreases s.len(),
{
    reveal_strlit("/");
    assert("/"@ =~= seq!['/']);
    lemma_find_single(s, '/');
    if s.contains('/') {
        let i = find_seq(s, "/"@)->0;
        let head = s.subrange(0, i);
        let rest = s.subrange(i + 1, s.len() as int);
        lemma_pieces_no_slash(rest);
        assert(split_all(s, "/"@) == seq![head] + split_all(rest, "/"@));
        assert forall|k: int| 0 <= k < split_all(s, "/"@).len() implies !(#[trigger] split_all(
            s,
            "/"@,
        )[k]).contains('/') by {
            if k == 0 {
                if head.contains('/') {
                    let t = choose|t: int| 0 <= t < head.len() && head[t] == '/';
                    assert(s[t] == '/');
                }
            } else {
                assert(split_all(s, "/"@)[k] == split_all(rest, "/"@)[k - 1]);
            }
        }
    } else {
        assert(split_all(s, "/"@) == seq![s]);
    }
}

/// The first character of parts joined with `/` is that of the first part.
pub proof fn lemma_join_first(m: Seq<Seq<char>>)
    requires
        m.len() >= 1,
        m[0].len() > 0,
    ensures
        join_parts(m).len() > 0,
        join_parts(m)[0] == m[0][0],
{
    reveal_strlit("/");
    if m.len() > 1 {
        let j = m[0] + "/"@ + join_parts(m.drop_first());
        assert(j[0] == m[0][0]);
    }
}

/// Splitting at the first `/` of `s`, at `i`: the text before it, then the
/// pieces of the rest.
proof fn lemma_split_at_first(s: Seq<char>, i: int)
    requires
        0 <= i < s.len(),
        s[i] == '/',
        forall|t: int| 0 <= t < i ==> s[t] != '/',
    ensures
        split_all(s, "/"@) == seq![s.subrange(0, i)] + split_all(s.subrange(i + 1, s.len() as int), "/"@),
{
    reveal_strlit("/");
    assert("/"@ =~= seq!['/']);
    assert(s.contains('/'));
    lemma_find_single(s, '/');
    let f = find_seq(s, "/"@)->0;
    assert(f == i) by {
        if f < i {
            assert(s[f] != '/');
        } else if f > i {
        }
    }
}

/// Splitting at `/` the parts joined with `/` gives the parts back, when
/// none of them holds a `/`.
pub proof fn lemma_split_join(m: Seq<Seq<char>>)
    requires
        m.len() >= 1,
        forall|k: int| 0 <= k < m.len() ==> !(#[trigger] m[k]).contains('/'),
    ensures
        split_all(join_parts(m), "/"@) == m,
    decreases m.len(),
{
    reveal_strlit("/");
    if m.len() == 1 {
        assert("/"@ =~= seq!['/']);
        lemma_find_single(m[0], '/');
        assert(join_parts(m) == m[0]);
        assert(split_all(m[0], "/"@) == seq![m[0]]);
        assert(seq![m[0]] =~= m);
    } else {
        let a = m[0];
        let tail = m.drop_first();
        let rest = join_parts(tail);
        let j = a + "/"@ + rest;
        assert(join_parts(m) == j);
        assert forall|k: int| 0 <= k < tail.len() implies !(#[trigger] tail[k]).contains('/') by {
            assert(tail[k] == m[k + 1]);
        }
        lemma_split_join(tail);
        assert(j[a.len() as int] == '/');
        assert forall|t: int| 0 <= t < a.len() implies j[t] != '/' by {
            assert(j[t] == a[t]);
        }
        lemma_split_at_first(j, a.len() as int);
        assert(j.subrange(0, a.len() as int) =~= a);
        assert(j.subrange(a.len() as int + 1, j.len() as int) =~= rest);
        assert(seq![a] + tail =~= m);
    }
}

/// Each named part is one of the parts: not empty and not `.`.
pub proof fn lemma_named_from(p: Seq<Seq<char>>)
    ensures
        forall|k: int|
            0 <= k < named_parts(p).len() ==> (#[trigger] named_parts(p)[k]).len() > 0 && p.contains(
                named_parts(p)[k],
            ),
    decreases p.len(),
{
    if p.len() > 0 {
        let d = p.drop_first();
        lemma_named_from(d);
        assert forall|k: int| 0 <= k < named_parts(p).len() implies (#[trigger] named_parts(p)[k]).len()
            > 0 && p.contains(named_parts(p)[k]) by {
            if p[0].len() == 0 || p[0] == "."@ {
                assert(named_parts(p)[k] == named_parts(d)[k]);
                let w = choose|w: int| 0 <= w < d.len() && d[w] == named_parts(d)[k];
                assert(p[w + 1] == d[w]);
            } else if k == 0 {
                assert(named_parts(p)[0] == p[0]);
            } else {
                assert(named_parts(p)[k] == named_parts(d)[k - 1]);
                let w = choose|w: int| 0 <= w < d.len() && d[w] == named_parts(d)[k - 1];
                assert(p[w + 1] == d[w]);
            }
        }
    }
}

fn named_parts_of(parts: &Vec<Vec<char>>) -> (r: Vec<Vec<char>>)
    ensures
        r@.map_values(|v: Vec<char>| v@) == named_parts(parts@.map_values(|v: Vec<char>| v@)),
{
    let ghost ps = parts@.map_values(|v: Vec<char>| v@);
    let mut out: Vec<Vec<char>> = Vec::new();
    let mut i: usize = parts.len();
    proof {
        reveal_strlit(".");
    }
    while i > 0
        invariant
            i <= parts@.len(),
            ps == parts@.map_values(|v: Vec<char>| v@),
            out@.map_values(|v: Vec<char>| v@) == named_parts(ps.subrange(i as int, ps.len() as int)),
        decreases i,
    {
        i = i - 1;
        let ghost rest = ps.subrange(i as int, ps.len() as int);
        assert(rest.drop_first() =~= ps.subrange(i + 1, ps.len() as int));
        assert(rest[0] == parts@[i as int]@);
        let p = &parts[i];
        if p.len() == 0 || chars_eq(p, &chars_of(".")) {
        } else {
            let ghost before = out@.map_values(|v: Vec<char>| v@);
            out.insert(0, slice_of_all(p));
            assert(out@.map_values(|v: Vec<char>| v@) =~= seq![p@] + before);
        }
    }
    assert(ps.subrange(0, ps.len() as int) =~= ps);
    out
}

fn slice_of_all(v: &Vec<char>) -> (r: Vec<char>)
    ensures
        r@ == v@,
{
    let r = crate::text::slice_of(v, 0, v.len());
    assert(r@ =~= v@);
    r
}

fn join_parts_of(parts: &Vec<Vec<char>>, from: usize) -> (r: Vec<char>)
    requires
        from <= parts@.len(),
    ensures
        r@ == join_parts(parts@.map_values(|v: Vec<char>| v@).subrange(from as int, parts@.len() as int)),
    decreases parts@.len() - from,
{
    let ghost ps = parts@.map_values(|v: Vec<char>| v@).subrange(from as int, parts@.len() as int);
    proof {
        reveal_strlit("/");
    }
    if from == parts.len() {
        Vec::new()
    } else if from + 1 == parts.len() {
        assert(ps[0] == parts@[from as int]@);
        slice_of_all(&parts[from])
    } else {
        assert(ps[0] == parts@[from as int]@);
        assert(ps.drop_first() =~= parts@.map_values(|v: Vec<char>| v@).subrange(
            from + 1,
            parts@.len() as int,
        ));
        let tail = join_parts_of(parts, from + 1);
        let head = concat(&parts[from], &chars_of("/"));
        concat(&head, &tail)
    }
}

/// Where an archive entry may be written: refused when it climbs out of the
/// target directory or is absolute; `None` when it names the target directory itself.
pub fn entry_target(path: &str) -> (r: Result<Option<String>, TarballError>)
    ensures
        r is Err <==> unsafe_entry(path@),
        r matches Err(e) ==> e is UnsafeEntry,
        r matches Ok(d) ==> match d {
            Some(s) => entry_destination(path@) == Some(s@),
            None => entry_destination(path@) is None,
        },
{
    let p = chars_of(path);
    proof {
        reveal_strlit("/");
        reveal_strlit("..");
        reveal_strlit(".");
        reveal_strlit("./");
        reveal_strlit("package");
    }
    let sep = chars_of("/");
    let parts = split_pieces(&p, &sep);
    let ghost ps = parts@.map_values(|v: Vec<char>| v@);
    let absolute = p.len() > 0 && p[0] == '/';
    proof {
        if p@.len() > 0 {
            assert(p@.subrange(0, 1)[0] == p@[0]);
        }
        if absolute {
            assert(p@.subrange(0, 1) =~= "/"@);
        }
    }
    let mut climbs = false;
    let mut i: usize = 0;
    while i < parts.len()
        invariant
            i <= parts@.len(),
            ps == parts@.map_values(|v: Vec<char>| v@),
            climbs == exists|k: int| 0 <= k < i && bad_piece(#[trigger] ps[k]),
        decreases parts@.len() - i,
    {
        assert(ps[i as int] == parts@[i as int]@);
        if is_bad_piece(&parts[i]) {
            climbs = true;
        }
        i = i + 1;
    }
    if absolute || climbs {
        return Err(TarballError::UnsafeEntry { path: string_of(p) });
    }
    let named = named_parts_of(&parts);
    let ghost nv = named@.map_values(|v: Vec<char>| v@);
    let dot = chars_eq(&p, &chars_of(".")) || crate::text::starts_with(&p, &chars_of("./"));
    let dest = if !dot && named.len() > 0 && chars_eq(&named[0], &chars_of("package")) {
        let j = join_parts_of(&named, 1);
        assert(nv.subrange(1, nv.len() as int) =~= nv.drop_first());
        j
    } else {
        p
    };
    if dest.len() == 0 {
        Ok(None)
    } else {
        Ok(Some(string_of(dest)))
    }
}

/// The archive entry that holds a package's manifest: `package/package.json`,
/// or `package.json` at the top.
pub open spec fn manifest_entry(path: Seq<char>) -> bool {
    path == "package/package.json"@ || path == "package.json"@
}

/// Whether an archive entry, by its path, is the package's manifest.
pub fn is_manifest_entry(path: &str) -> (r: bool)
    ensures
        r == manifest_entry(path@),
{
    let p = chars_of(path);
    chars_eq(&p, &chars_of("package/package.json")) || chars_eq(&p, &chars_of("package.json"))
}

/// The entries of a gzip-compressed tar archive, in order, as
/// `tar::Archive::entries` reads them through `flate2::read::GzDecoder`: each
/// entry's path (lossily converted to UTF-8) and its content read as UTF-8
/// text (`None` when it is not text). An entry whose path cannot be read is
/// passed over; the walk ends at the first entry that cannot be read at all
/// (tar's iterator stops after an error).
pub uninterp spec fn tgz_entries_of(bytes: Seq<u8>) -> Seq<(Seq<char>, Option<Seq<char>>)>;

/// Entries as text pairs.
pub open spec fn entry_texts(v: Seq<(String, Option<String>)>) -> Seq<(Seq<char>, Option<Seq<char>>)> {
    v.map_values(
        |e: (String, Option<String>)|
            (
                e.0@,
                match e.1 {
                    Some(t) => Some(t@),
                    None => None,
                },
            ),
    )
}

/// `tar::Archive::entries` over `flate2::read::GzDecoder`, each entry's path
/// and `std::io::Read::read_to_string` of its content.
#[verifier::external_body]
fn tgz_entries(bytes: &[u8]) -> (r: Vec<(String, Option<String>)>)
    ensures
        entry_texts(r@) == tgz_entries_of(bytes@),
{
    let mut out: Vec<(String, Option<String>)> = Vec::new();
    let mut archive = tar::Archive::new(flate2::read::GzDecoder::new(bytes));
    if let Ok(entries) = archive.entries() {
        for mut e in entries.flatten() {
            if let Ok(p) = e.path().map(|p| p.to_string_lossy().into_owned()) {
                let mut text = String::new();
                let read = std::io::Read::read_to_string(&mut e, &mut text).ok().map(|_| text);
                out.push((p, read));
            }
        }
    }
    out
}

/// The position, from `from` on, of the first entry that is the manifest.
pub open spec fn first_manifest(entries: Seq<(Seq<char>, Option<Seq<char>>)>, from: int) -> Option<int>
    decreases entries.len() - from,
{
    if from < 0 || from >= entries.len() {
        None
    } else if manifest_entry(entries[from].0) {
        Some(from)
    } else {
        first_manifest(entries, from + 1)
    }
}

/// The manifest text inside a package tarball: the content of its first entry
/// named as a manifest; `None` when there is none or it is not text.
pub open spec fn manifest_text_of(bytes: Seq<u8>) -> Option<Seq<char>> {
    let es = tgz_entries_of(bytes);
    match first_manifest(es, 0) {
        Some(i) => es[i].1,
        None => None,
    }
}

/// The text of the `package.json` inside a package tarball.
pub fn tarball_manifest_text(bytes: &[u8]) -> (r: Option<String>)
    ensures
        match r {
            Some(t) => manifest_text_of(bytes@) == Some(t@),
            None => manifest_text_of(bytes@) is None,
        },
{
    let entries = tgz_entries(bytes);
    let ghost ev = entry_texts(entries@);
    let mut i: usize = 0;
    while i < entries.len()
        invariant
            i <= entries@.len(),
            ev == entry_texts(entries@),
            ev == tgz_entries_of(bytes@),
            first_manifest(ev, 0) == first_manifest(ev, i as int),
        decreases entries@.len() - i,
    {
        assert(ev[i as int].0 == entries@[i as int].0@);
        if is_manifest_entry(entries[i].0.as_str()) {
            return match &entries[i].1 {
                Some(t) => Some(t.clone()),
                None => None,
            };
        }
        i = i + 1;
    }
    None
}

/// One entry of a package tarball as read: its path, its tar type byte, the
/// target of a link, its permission bits, and its content.
pub struct ArchiveEntry {
    pub path: String,
    pub kind: u8,
    pub link: Option<String>,
    pub mode: Option<u32>,
    pub data: Vec<u8>,
}

pub open spec fn opt_chars(o: Option<String>) -> Option<Seq<char>> {
    match o {
        Some(t) => Some(t@),
        None => None,
    }
}

/// An archive entry as plain values.
pub open spec fn archive_entry_view(e: ArchiveEntry) -> (Seq<char>, u8, Option<Seq<char>>, Option<u32>, Seq<u8>) {
    (e.path@, e.kind, opt_chars(e.link), e.mode, e.data@)
}

pub open spec fn archive_view(r: Option<Vec<ArchiveEntry>>) -> Option<
    Seq<(Seq<char>, u8, Option<Seq<char>>, Option<u32>, Seq<u8>)>,
> {
    match r {
        Some(v) => Some(v@.map_values(|e: ArchiveEntry| archive_entry_view(e))),
        None => None,
    }
}

/// The entries of a gzip-compressed tar archive, in order, as
/// `tar::Archive::entries` reads them through `flate2::read::GzDecoder`: each
/// entry's path and link target (lossily converted to UTF-8), its type byte,
/// its mode, and its content; `None` when some entry, path, link target or
/// content cannot be read.
pub uninterp spec fn tgz_archive_of(bytes: Seq<u8>) -> Option<
    Seq<(Seq<char>, u8, Option<Seq<char>>, Option<u32>, Seq<u8>)>,
>;

/// `tar::Archive::entries` over `flate2::read::GzDecoder`, each entry read
/// with `Entry::path`, `Entry::link_name`, its header's type and mode, and
/// `std::io::Read::read_to_end`.
#[verifier::external_body]
fn tgz_archive(bytes: &[u8]) -> (r: Option<Vec<ArchiveEntry>>)
    ensures
        archive_view(r) == tgz_archive_of(bytes@),
{
    let mut out = Vec::new();
    for entry in tar::Archive::new(flate2::read::GzDecoder::new(bytes)).entries().ok()? {
        let mut e = entry.ok()?;
        let path = e.path().ok()?.to_string_lossy().into_owned();
        let link = e.link_name().ok()?.map(|l| l.to_string_lossy().into_owned());
        let (kind, mode, mut data) = (e.header().entry_type().as_byte(), e.header().mode().ok(), Vec::new());
        std::io::Read::read_to_end(&mut e, &mut data).ok()?;
        out.push(ArchiveEntry { path, kind, link, mode, data });
    }
    Some(out)
}

/// The tar type byte of a hard link (`'1'`).
pub open spec fn hard_link_kind() -> u8 {
    49
}

/// The tar type byte of a symbolic link (`'2'`).
pub open spec fn symlink_kind() -> u8 {
    50
}

/// Walking the pieces of a link target from a directory `depth` levels below
/// the target directory climbs above it, or meets a piece Windows reads as
/// rooted or climbing.
pub open spec fn link_climbs(depth: int, pieces: Seq<Seq<char>>) -> bool
    decreases pieces.len(),
{
    if pieces.len() == 0 {
        false
    } else {
        let p = pieces[0];
        if p == ".."@ {
            depth <= 0 || link_climbs(depth - 1, pieces.drop_first())
        } else if p.len() == 0 || p == "."@ {
            link_climbs(depth, pieces.drop_first())
        } else if bad_piece(p) {
            true
        } else {
            link_climbs(depth + 1, pieces.drop_first())
        }
    }
}

/// How many directories below the target directory an entry's own directory is.
pub open spec fn entry_depth(path: Seq<char>) -> int {
    match entry_destination(path) {
        Some(d) => if named_parts(split_all(d, "/"@)).len() == 0 {
            0
        } else {
            named_parts(split_all(d, "/"@)).len() - 1
        },
        None => 0,
    }
}

/// A link entry whose target leaves the target directory: a symbolic link that
/// is absolute or climbs above it, or a hard link whose target (named from the
/// archive's top, like an entry) is unsafe or names the directory itself.
pub open spec fn link_escapes(path: Seq<char>, kind: u8, link: Option<Seq<char>>) -> bool {
    match link {
        Some(l) => if kind == symlink_kind() {
            has_prefix(l, "/"@) || link_climbs(entry_depth(path), split_all(l, "/"@))
        } else if kind == hard_link_kind() {
            unsafe_entry(l) || entry_destination(l) is None
        } else {
            false
        },
        None => false,
    }
}

/// An entry extraction refuses.
pub open spec fn entry_refused(e: (Seq<char>, u8, Option<Seq<char>>, Option<u32>, Seq<u8>)) -> bool {
    unsafe_entry(e.0) || link_escapes(e.0, e.1, e.2)
}

/// What is written for one entry: where (relative to the target directory),
/// its type byte, its link target (for a hard link, where that target was
/// written), its mode and its content.
pub struct PlannedEntry {
    pub dest: String,
    pub kind: u8,
    pub link: Option<String>,
    pub mode: Option<u32>,
    pub data: Vec<u8>,
}

pub open spec fn planned_view(p: PlannedEntry) -> (Seq<char>, u8, Option<Seq<char>>, Option<u32>, Seq<u8>) {
    (p.dest@, p.kind, opt_chars(p.link), p.mode, p.data@)
}

/// The link target recorded in the plan.
pub open spec fn planned_link(kind: u8, link: Option<Seq<char>>) -> Option<Seq<char>> {
    match link {
        Some(l) => if kind == hard_link_kind() {
            entry_destination(l)
        } else {
            Some(l)
        },
        None => None,
    }
}

/// The plan for accepted entries: those with a destination, in order.
pub open spec fn planned(es: Seq<(Seq<char>, u8, Option<Seq<char>>, Option<u32>, Seq<u8>)>) -> Seq<
    (Seq<char>, u8, Option<Seq<char>>, Option<u32>, Seq<u8>),
>
    decreases es.len(),
{
    if es.len() == 0 {
        Seq::empty()
    } else {
        let e = es.last();
        let before = planned(es.drop_last());
        match entry_destination(e.0) {
            Some(d) => before.push((d, e.1, planned_link(e.1, e.2), e.3, e.4)),
            None => before,
        }
    }
}

fn link_climbs_exec(depth: u128, pieces: &Vec<Vec<char>>) -> (r: bool)
    requires
        depth + pieces@.len() < u128::MAX,
    ensures
        r == link_climbs(depth as int, pieces@.map_values(|v: Vec<char>| v@)),
{
    let ghost ps = pieces@.map_values(|v: Vec<char>| v@);
    let mut d: u128 = depth;
    let mut i: usize = 0;
    proof {
        reveal_strlit("..");
        reveal_strlit(".");
        assert(ps.subrange(0, ps.len() as int) =~= ps);
    }
    while i < pieces.len()
        invariant
            i <= pieces@.len(),
            ps == pieces@.map_values(|v: Vec<char>| v@),
            d <= depth + i,
            depth + pieces@.len() < u128::MAX,
            link_climbs(depth as int, ps) == link_climbs(d as int, ps.subrange(i as int, ps.len() as int)),
        decreases pieces@.len() - i,
    {
        let ghost rest = ps.subrange(i as int, ps.len() as int);
        assert(rest.drop_first() =~= ps.subrange(i + 1, ps.len() as int));
        assert(rest[0] == pieces@[i as int]@);
        let p = &pieces[i];
        if chars_eq(p, &chars_of("..")) {
            if d == 0 {
                return true;
            }
            d = d - 1;
        } else if p.len() == 0 || chars_eq(p, &chars_of(".")) {
        } else if is_bad_piece(p) {
            return true;
        } else {
            d = d + 1;
        }
        i = i + 1;
    }
    false
}

/// Whether a link entry's target leaves the target directory (`link_escapes`).
fn link_escapes_exec(path: &str, kind: u8, link: &Option<String>) -> (r: bool)
    requires
        !unsafe_entry(path@),
    ensures
        r == link_escapes(path@, kind, opt_chars(*link)),
{
    proof {
        reveal_strlit("/");
    }
    match link {
        None => false,
        Some(l) => {
            let lc = chars_of(l.as_str());
            if kind == 50 {
                if crate::text::starts_with(&lc, &chars_of("/")) {
                    return true;
                }
                let depth: usize = match entry_target(path) {
                    Ok(Some(d)) => {
                        let dp = named_parts_of(&split_pieces(&chars_of(d.as_str()), &chars_of("/")));
                        if dp.len() == 0 {
                            0
                        } else {
                            dp.len() - 1
                        }
                    },
                    _ => 0,
                };
                let lp = split_pieces(&lc, &chars_of("/"));
                let n: usize = lp.len();
                assert(lp@.len() == n);
                assert(usize::MAX <= 0xffff_ffff_ffff_ffff);
                assert((depth as u128) + lp@.len() < u128::MAX);
                link_climbs_exec(depth as u128, &lp)
            } else if kind == 49 {
                match entry_target(l.as_str()) {
                    Ok(Some(_)) => false,
                    _ => true,
                }
            } else {
                false
            }
        },
    }
}

/// The outcome of planning an extraction of an archive read as `archive`.
pub open spec fn plan_outcome(
    archive: Option<Seq<(Seq<char>, u8, Option<Seq<char>>, Option<u32>, Seq<u8>)>>,
    r: Result<Vec<PlannedEntry>, TarballError>,
) -> bool {
    match archive {
        None => r matches Err(TarballError::Unreadable),
        Some(es) => if r is Ok {
            (forall|i: int| 0 <= i < es.len() ==> !entry_refused(#[trigger] es[i]))
                && r->Ok_0@.map_values(|p: PlannedEntry| planned_view(p)) == planned(es)
        } else {
            &&& r->Err_0 is UnsafeEntry
            &&& exists|i: int|
                0 <= i < es.len() && entry_refused(#[trigger] es[i]) && es[i].0 == r->Err_0->UnsafeEntry_path@
        },
    }
}

proof fn lemma_refusal_outcome(
    es: Seq<(Seq<char>, u8, Option<Seq<char>>, Option<u32>, Seq<u8>)>,
    w: int,
    r: Result<Vec<PlannedEntry>, TarballError>,
)
    requires
        0 <= w < es.len(),
        entry_refused(es[w]),
        r matches Err(TarballError::UnsafeEntry { path }) && path@ == es[w].0,
    ensures
        plan_outcome(Some(es), r),
{
    assert(!(r is Ok));
    assert(r->Err_0 is UnsafeEntry);
    assert(entry_refused(es[w]) && es[w].0 == r->Err_0->UnsafeEntry_path@);
    assert(exists|i: int|
                0 <= i < es.len() && entry_refused(#[trigger] es[i]) && es[i].0 == r->Err_0->UnsafeEntry_path@);
    let a: Option<Seq<(Seq<char>, u8, Option<Seq<char>>, Option<u32>, Seq<u8>)>> = Some(es);
    assert(a->0 == es);
    assert(plan_outcome(a, r));
}

/// What extracting a package tarball writes, entry by entry, in order: each
/// entry that has a destination, at that destination. The whole archive is
/// refused when it cannot be read, or when any entry is unsafe or is a link
/// that leaves the target directory; nothing is then written.
#[verifier::spinoff_prover]
pub fn extraction_plan(bytes: &[u8]) -> (r: Result<Vec<PlannedEntry>, TarballError>)
    ensures
        plan_outcome(tgz_archive_of(bytes@), r),
{
    let mut entries = match tgz_archive(bytes) {
        Some(v) => v,
        None => {
            return Err(TarballError::Unreadable);
        },
    };
    let ghost es = entries@.map_values(|e: ArchiveEntry| archive_entry_view(e));
    let ghost n = es.len() as int;
    let mut plan: Vec<PlannedEntry> = Vec::new();
    let ghost mut done: int = 0;
    assert(es.subrange(0, n) =~= es);
    assert(es.subrange(0, 0) =~= Seq::<(Seq<char>, u8, Option<Seq<char>>, Option<u32>, Seq<u8>)>::empty());
    while entries.len() > 0
        invariant
            0 <= done <= n,
            n == es.len(),
            Some(es) == tgz_archive_of(bytes@),
            entries@.map_values(|e: ArchiveEntry| archive_entry_view(e)) == es.subrange(done, n),
            forall|k: int| 0 <= k < done ==> !entry_refused(#[trigger] es[k]),
            plan@.map_values(|p: PlannedEntry| planned_view(p)) == planned(es.subrange(0, done)),
        decreases entries.len(),
    {
        let ghost before = entries@;
        let e = entries.remove(0);
        proof {
            let bv = before.map_values(|e: ArchiveEntry| archive_entry_view(e));
            assert(bv == es.subrange(done, n));
            assert(bv[0] == archive_entry_view(before[0]));
            assert(es.subrange(done, n)[0] == es[done]);
            assert(archive_entry_view(e) == es[done]);
            let av = entries@.map_values(|e: ArchiveEntry| archive_entry_view(e));
            assert(av.len() == n - done - 1);
            assert forall|j: int| 0 <= j < av.len() implies av[j] == es.subrange(done + 1, n)[j] by {
                assert(entries@[j] == before[j + 1]);
                assert(bv[j + 1] == es.subrange(done, n)[j + 1]);
            }
            assert(av =~= es.subrange(done + 1, n));
        }
        let dest = match entry_target(e.path.as_str()) {
            Err(_) => {
                assert(entry_refused(es[done]) && es[done].0 == e.path@);
                let res: Result<Vec<PlannedEntry>, TarballError> = Err(TarballError::UnsafeEntry { path: e.path });
                proof {
                    lemma_refusal_outcome(es, done, res);
                }
                return res;
            },
            Ok(d) => d,
        };
        let escapes = link_escapes_exec(e.path.as_str(), e.kind, &e.link);
        if escapes {
            assert(entry_refused(es[done]) && es[done].0 == e.path@);
            let res: Result<Vec<PlannedEntry>, TarballError> = Err(TarballError::UnsafeEntry { path: e.path });
            proof {
                    lemma_refusal_outcome(es, done, res);
                }
            return res;
        }
        let ghost pv = plan@.map_values(|p: PlannedEntry| planned_view(p));
        let ghost prefix = es.subrange(0, done + 1);
        proof {
            assert(prefix.drop_last() =~= es.subrange(0, done));
            assert(prefix.last() == es[done]);
        }
        match dest {
            Some(d) => {
                let link = if e.kind == 49 {
                    match &e.link {
                        Some(l) => match entry_target(l.as_str()) {
                            Ok(x) => x,
                            Err(_) => None,
                        },
                        None => None,
                    }
                } else {
                    e.link
                };
                plan.push(PlannedEntry { dest: d, kind: e.kind, link, mode: e.mode, data: e.data });
                proof {
                    assert(plan@.map_values(|p: PlannedEntry| planned_view(p)) =~= pv.push(
                        planned_view(plan@.last()),
                    ));
                }
            },
            None => {},
        }
        proof {
            done = done + 1;
        }
    }
    assert(es.subrange(0, n) =~= es);
    Ok(plan)
}

} // verus!
