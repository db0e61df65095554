//! `.npmrc` settings: the registry URL and per-registry auth tokens.
use vstd::prelude::*;

use crate::strmap::{lookup, StrMap};
use crate::text::{
    chars_eq, chars_of, concat, contains, contains_seq, find_char, find_seq, has_prefix,
    has_suffix, slice_of, split_all, split_pieces, starts_with, string_of, strip_suffix, trim,
    trim_chars, trim_end_char, trim_end_matches_char, trim_start_char, trim_start_matches_char,
};

verus! {

pub struct NpmConfig {
    pub registry: Option<String>,
    pub auth_tokens: StrMap<String>,
}

pub open spec fn opt_view(o: Option<String>) -> Option<Seq<char>> {
    match o {
        Some(s) => Some(s@),
        None => None,
    }
}

impl Default for NpmConfig {
    fn default() -> (c: Self)
        ensures
            c.registry is None,
            c.auth_tokens@.len() == 0,
    {
        NpmConfig { registry: None, auth_tokens: StrMap::new() }
    }
}

/// The `key = value` pair that one `.npmrc` line sets, if any
/// (blank lines and `#` / `;` comments set nothing).
pub open spec fn npmrc_pair(line: Seq<char>) -> Option<(Seq<char>, Seq<char>)> {
    let l = trim(line);
    if l.len() == 0 || has_prefix(l, "#"@) || has_prefix(l, ";"@) {
        None
    } else {
        match find_seq(l, seq!['=']) {
            Some(i) => Some((trim(l.subrange(0, i)), trim(l.subrange(i + 1, l.len() as int)))),
            None => None,
        }
    }
}

/// The registry after applying `lines` in order, starting from `init`.
pub open spec fn registry_after(lines: Seq<Seq<char>>, init: Option<Seq<char>>) -> Option<
    Seq<char>,
>
    decreases lines.len(),
{
    if lines.len() == 0 {
        init
    } else {
        let prev = registry_after(lines.drop_last(), init);
        match npmrc_pair(lines.last()) {
            Some((k, v)) => if k == "registry"@ {
                Some(v)
            } else {
                prev
            },
            None => prev,
        }
    }
}

pub open spec fn is_token_key(k: Seq<char>) -> bool {
    k != "registry"@ && has_suffix(k, ":_authToken"@)
}

/// The token stored under `key` after applying `lines` in order, starting from `init`.
pub open spec fn token_after(lines: Seq<Seq<char>>, key: Seq<char>, init: Option<Seq<char>>) -> Option<
    Seq<char>,
>
    decreases lines.len(),
{
    if lines.len() == 0 {
        init
    } else {
        let prev = token_after(lines.drop_last(), key, init);
        match npmrc_pair(lines.last()) {
            Some((k, v)) => if is_token_key(k) && k == key {
                Some(v)
            } else {
                prev
            },
            None => prev,
        }
    }
}

/// The registry part of an auth-token key, slashes trimmed from both ends.
pub open spec fn token_scope(k: Seq<char>) -> Seq<char> {
    trim_end_char(trim_start_char(k.subrange(0, k.len() - ":_authToken"@.len()), '/'), '/')
}

/// The token under key `k` applies to `url`.
pub open spec fn token_applies(k: Seq<char>, url: Seq<char>) -> bool {
    has_suffix(k, ":_authToken"@) && contains_seq(url, token_scope(k))
}

impl NpmConfig {
    /// Applies the settings of `.npmrc` text: `registry=...` sets the registry,
    /// `<scope>:_authToken=...` records a token; later lines win.
    pub fn apply_npmrc(&mut self, content: &str)
        ensures
            opt_view(final(self).registry) == registry_after(
                split_all(content@, "\n"@),
                opt_view(old(self).registry),
            ),
            forall|q: Seq<char>|
                #![trigger lookup(final(self).auth_tokens@, q)]
                opt_view(lookup(final(self).auth_tokens@, q)) == token_after(
                    split_all(content@, "\n"@),
                    q,
                    opt_view(lookup(old(self).auth_tokens@, q)),
                ),
    {
        let nl = chars_of("\n");
        proof {
            reveal_strlit("\n");
        }
        let lines = split_pieces(&chars_of(content), &nl);
        let ghost ls = lines@.map_values(|v: Vec<char>| v@);
        let ghost init_reg = opt_view(old(self).registry);
        let ghost init_tok = old(self).auth_tokens@;
        let mut i: usize = 0;
        while i < lines.len()
            invariant
                0 <= i <= lines@.len(),
                ls == lines@.map_values(|v: Vec<char>| v@),
                ls == split_all(content@, "\n"@),
                opt_view(self.registry) == registry_after(ls.take(i as int), init_reg),
                forall|q: Seq<char>|
                    #![trigger lookup(self.auth_tokens@, q)]
                    opt_view(lookup(self.auth_tokens@, q)) == token_after(
                        ls.take(i as int),
                        q,
                        opt_view(lookup(init_tok, q)),
                    ),
            decreases lines@.len() - i,
        {
            let line = trim_chars(&lines[i]);
            proof {
                assert(ls.take(i + 1).drop_last() =~= ls.take(i as int));
                assert(ls.take(i + 1).last() == lines@[i as int]@);
            }
            let skip = line.len() == 0 || starts_with(&line, &chars_of("#")) || starts_with(
                &line,
                &chars_of(";"),
            );
            if !skip {
                match find_char(&line, '=') {
                    Some(idx) => {
                        let n = line.len();
                        let key = trim_chars(&slice_of(&line, 0, idx));
                        let val = trim_chars(&slice_of(&line, idx + 1, n));
                        assert(npmrc_pair(lines@[i as int]@) == Some((key@, val@)));
                        if chars_eq(&key, &chars_of("registry")) {
                            self.registry = Some(string_of(val));
                        } else if let Some(_) = strip_suffix(&key, &chars_of(":_authToken")) {
                            let ghost before = self.auth_tokens@;
                            self.auth_tokens.insert(string_of(key), string_of(val));
                        }
                    },
                    None => {
                        assert(npmrc_pair(lines@[i as int]@) is None);
                    },
                }
            } else {
                assert(npmrc_pair(lines@[i as int]@) is None);
            }
            i = i + 1;
        }
        assert(ls.take(i as int) =~= ls);
    }

    /// Retrieve authentication header value if a token is configured for this registry URL
    pub fn get_auth_token_for_url(&self, url: &str) -> (r: Option<String>)
        ensures
            match r {
                Some(h) => exists|i: int|
                    #![trigger self.auth_tokens@[i]]
                    0 <= i < self.auth_tokens@.len() && token_applies(
                        self.auth_tokens@[i].0@,
                        url@,
                    ) && (forall|j: int|
                        0 <= j < i ==> !token_applies(#[trigger] self.auth_tokens@[j].0@, url@))
                        && h@ == "Bearer "@ + self.auth_tokens@[i].1@,
                None => forall|i: int|
                    0 <= i < self.auth_tokens@.len() ==> !token_applies(
                        #[trigger] self.auth_tokens@[i].0@,
                        url@,
                    ),
            },
    {
        let u = chars_of(url);
        let entries = self.auth_tokens.entries();
        let mut i: usize = 0;
        while i < entries.len()
            invariant
                entries@ == self.auth_tokens@,
                u@ == url@,
                i <= entries@.len(),
                forall|j: int|
                    0 <= j < i ==> !token_applies(#[trigger] self.auth_tokens@[j].0@, url@),
            decreases entries@.len() - i,
        {
            let k = chars_of(entries[i].0.as_str());
            assert(k@ == self.auth_tokens@[i as int].0@);
            if let Some(part) = strip_suffix(&k, &chars_of(":_authToken")) {
                let scope = trim_end_matches_char(&trim_start_matches_char(&part, '/'), '/');
                assert(scope@ == token_scope(k@));
                if contains(&u, &scope) {
                    let v = chars_of(entries[i].1.as_str());
                    assert(token_applies(self.auth_tokens@[i as int].0@, url@));
                    return Some(string_of(concat(&chars_of("Bearer "), &v)));
                }
                assert(!token_applies(self.auth_tokens@[i as int].0@, url@));
            }
            assert(!token_applies(self.auth_tokens@[i as int].0@, url@));
            i = i + 1;
        }
        None
    }
}

} // verus!
