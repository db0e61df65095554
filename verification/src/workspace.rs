//! Workspaces: the member patterns a root manifest declares, how a member is
//! named and found, and where it is linked. The directories are read and the
//! links made by the program around the library.
use vstd::prelude::*;

use crate::json::{json_member, json_str, JsonValue};
use crate::package::manifest::PackageJson;
use crate::text::{
    chars_eq, chars_of, concat, ends_with, find_char, find_seq, has_prefix, has_suffix,
    replace_char, replace_char_with, slice_of, string_of, strip_suffix, trim_end_char,
    trim_end_matches_char,
};

verus! {

pub struct WorkspaceMember {
    pub name: String,
    /// The member's directory.
    pub path: String,
    pub manifest: PackageJson,
}

/// The string items of a JSON array, in order.
pub open spec fn string_items(items: Seq<JsonValue>) -> Seq<Seq<char>>
    decreases items.len(),
{
    if items.len() == 0 {
        Seq::empty()
    } else {
        let rest = string_items(items.drop_last());
        match json_str(items.last()) {
            Some(s) => rest.push(s),
            None => rest,
        }
    }
}

/// The member patterns of the `workspaces` field: an array of strings, or an
/// object whose `packages` member is one.
pub open spec fn patterns_of(w: Option<JsonValue>) -> Seq<Seq<char>> {
    match w {
        Some(JsonValue::Array(items)) => string_items(items@),
        Some(v) => match json_member(v, "packages"@) {
            Some(JsonValue::Array(items)) => if v is Object {
                string_items(items@)
            } else {
                Seq::empty()
            },
            _ => Seq::empty(),
        },
        None => Seq::empty(),
    }
}

fn strings_of(items: &Vec<JsonValue>) -> (r: Vec<String>)
    ensures
        r@.map_values(|s: String| s@) == string_items(items@),
{
    let mut out: Vec<String> = Vec::new();
    let mut i: usize = 0;
    assert(items@.subrange(0, 0) =~= Seq::<JsonValue>::empty());
    while i < items.len()
        invariant
            i <= items@.len(),
            out@.map_values(|s: String| s@) == string_items(items@.subrange(0, i as int)),
        decreases items@.len() - i,
    {
        let ghost sub = items@.subrange(0, i + 1);
        assert(sub.drop_last() =~= items@.subrange(0, i as int));
        assert(sub.last() == items@[i as int]);
        let ghost before = out@.map_values(|s: String| s@);
        match items[i].as_str() {
            Some(s) => {
                out.push(s.clone());
                assert(out@.map_values(|s: String| s@) =~= before.push(s@));
            },
            None => {},
        }
        i = i + 1;
    }
    assert(items@.subrange(0, items@.len() as int) =~= items@);
    out
}

/// The member patterns the root manifest declares (see `patterns_of`).
pub fn workspace_patterns(manifest: &PackageJson) -> (r: Vec<String>)
    ensures
        r@.map_values(|s: String| s@) == patterns_of(manifest.workspaces),
{
    match &manifest.workspaces {
        Some(JsonValue::Array(items)) => strings_of(items),
        Some(v) => {
            proof {
                reveal_strlit("packages");
            }
            match v {
                JsonValue::Object(_) => match v.get("packages") {
                    Some(JsonValue::Array(items)) => strings_of(items),
                    _ => {
                        let r: Vec<String> = Vec::new();
                        assert(r@.map_values(|s: String| s@) =~= Seq::<Seq<char>>::empty());
                        r
                    },
                },
                _ => {
                    let r: Vec<String> = Vec::new();
                    assert(r@.map_values(|s: String| s@) =~= Seq::<Seq<char>>::empty());
                    r
                },
            }
        },
        None => {
            let r: Vec<String> = Vec::new();
            assert(r@.map_values(|s: String| s@) =~= Seq::<Seq<char>>::empty());
            r
        },
    }
}

/// Where a pattern's members are looked for.
pub enum WorkspacePattern {
    /// `dir/*`: every directory inside `dir`.
    Children { parent: String },
    /// A single directory.
    Single { dir: String },
}

/// A pattern without trailing slashes: `dir/*` names the directories in `dir`.
pub open spec fn pattern_meaning(p: Seq<char>, r: WorkspacePattern) -> bool {
    let clean = trim_end_char(p, '/');
    if has_suffix(clean, "/*"@) {
        r matches WorkspacePattern::Children { parent } && parent@ == clean.subrange(
            0,
            clean.len() - 2,
        )
    } else {
        r matches WorkspacePattern::Single { dir } && dir@ == clean
    }
}

pub fn classify_pattern(pattern: &str) -> (r: WorkspacePattern)
    ensures
        pattern_meaning(pattern@, r),
{
    let clean = trim_end_matches_char(&chars_of(pattern), '/');
    proof {
        reveal_strlit("/*");
    }
    match strip_suffix(&clean, &chars_of("/*")) {
        Some(prefix) => WorkspacePattern::Children { parent: string_of(prefix) },
        None => WorkspacePattern::Single { dir: string_of(clean) },
    }
}

/// A member's name: its manifest's, else its directory's.
pub fn member_name(manifest: &PackageJson, dir_name: &str) -> (r: String)
    ensures
        r@ == match manifest.name {
            Some(n) => n@,
            None => dir_name@,
        },
{
    match &manifest.name {
        Some(n) => n.clone(),
        None => string_of(chars_of(dir_name)),
    }
}

/// The member is the one `target` names: by name, or by the end of its
/// directory path (with `\` read as `/`, and `target`'s trailing slashes dropped).
pub open spec fn names_member(m: WorkspaceMember, target: Seq<char>) -> bool {
    m.name@ == target || has_suffix(replace_char(m.path@, '\\', "/"@), trim_end_char(target, '/'))
}

/// Find a specific workspace member by name or relative directory path
pub fn find_workspace_member<'a>(members: &'a [WorkspaceMember], target: &str) -> (r: Option<
    &'a WorkspaceMember,
>)
    ensures
        match r {
            Some(m) => exists|i: int|
                0 <= i < members@.len() && members@[i] == *m && names_member(*m, target@) && forall|
                    j: int,
                | 0 <= j < i ==> !names_member(#[trigger] members@[j], target@),
            None => forall|j: int| 0 <= j < members@.len() ==> !names_member(#[trigger] members@[j], target@),
        },
{
    let t = chars_of(target);
    let tail = trim_end_matches_char(&t, '/');
    proof {
        reveal_strlit("/");
    }
    let slash = chars_of("/");
    let mut i: usize = 0;
    while i < members.len()
        invariant
            i <= members@.len(),
            t@ == target@,
            tail@ == trim_end_char(target@, '/'),
            slash@ == "/"@,
            forall|j: int| 0 <= j < i ==> !names_member(#[trigger] members@[j], target@),
        decreases members@.len() - i,
    {
        let m = &members[i];
        let by_name = chars_eq(&chars_of(m.name.as_str()), &t);
        let p = replace_char_with(&chars_of(m.path.as_str()), '\\', &slash);
        if by_name || ends_with(&p, &tail) {
            return Some(m);
        }
        i = i + 1;
    }
    None
}

/// Where a member is linked inside `node_modules`: `@scope/name` inside the
/// scope's folder, anything else directly.
pub open spec fn link_place(name: Seq<char>, scope: Option<Seq<char>>, leaf: Seq<char>) -> bool {
    if has_prefix(name, "@"@) && find_seq(name.drop_first(), "/"@) is Some {
        let s = name.drop_first();
        let i = find_seq(s, "/"@)->0;
        scope == Some("@"@ + s.subrange(0, i)) && leaf == s.subrange(i + 1, s.len() as int)
    } else {
        scope is None && leaf == name
    }
}

pub fn link_location(name: &str) -> (r: (Option<String>, String))
    ensures
        link_place(
            name@,
            match r.0 {
                Some(s) => Some(s@),
                None => None,
            },
            r.1@,
        ),
{
    let n = chars_of(name);
    proof {
        reveal_strlit("@");
        reveal_strlit("/");
    }
    if n.len() > 0 && n[0] == '@' {
        assert(n@.subrange(0, 1) =~= "@"@);
        let s = slice_of(&n, 1, n.len());
        assert(s@ =~= n@.drop_first());
        assert("/"@ =~= seq!['/']);
        match find_char(&s, '/') {
            Some(i) => {
                let scope = concat(&chars_of("@"), &slice_of(&s, 0, i));
                let leaf = slice_of(&s, i + 1, s.len());
                (Some(string_of(scope)), string_of(leaf))
            },
            None => (None, string_of(n)),
        }
    } else {
        proof {
            if n@.len() > 0 {
                assert(n@.subrange(0, 1)[0] == n@[0]);
            }
        }
        (None, string_of(n))
    }
}

} // verus!
