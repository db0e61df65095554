//! A map from strings to values kept sorted by key, in the order in which a
//! `BTreeMap<String, V>` keeps and walks its entries (byte order of UTF-8,
//! which is the code-point order of the characters).
use vstd::prelude::*;

use crate::text::{chars_of, chars_eq};

verus! {

/// Lexicographic order of character sequences, characters compared by code point.
pub open spec fn seq_lt(a: Seq<char>, b: Seq<char>) -> bool
    decreases a.len(),
{
    if b.len() == 0 {
        false
    } else if a.len() == 0 {
        true
    } else if (a[0] as u32) < (b[0] as u32) {
        true
    } else if a[0] == b[0] {
        seq_lt(a.drop_first(), b.drop_first())
    } else {
        false
    }
}

pub proof fn lemma_seq_lt_irreflexive(a: Seq<char>)
    ensures
        !seq_lt(a, a),
    decreases a.len(),
{
    if a.len() > 0 {
        lemma_seq_lt_irreflexive(a.drop_first());
    }
}

pub proof fn lemma_seq_lt_transitive(a: Seq<char>, b: Seq<char>, c: Seq<char>)
    requires
        seq_lt(a, b),
        seq_lt(b, c),
    ensures
        seq_lt(a, c),
    decreases a.len(),
{
    if a.len() > 0 && b.len() > 0 && c.len() > 0 {
        if a[0] == b[0] && b[0] == c[0] {
            lemma_seq_lt_transitive(a.drop_first(), b.drop_first(), c.drop_first());
        }
    }
}

pub proof fn lemma_seq_lt_total(a: Seq<char>, b: Seq<char>)
    ensures
        a == b || seq_lt(a, b) || seq_lt(b, a),
    decreases a.len(),
{
    if a.len() > 0 && b.len() > 0 {
        if a[0] == b[0] {
            lemma_seq_lt_total(a.drop_first(), b.drop_first());
            if a.drop_first() == b.drop_first() {
                assert(a =~= seq![a[0]] + a.drop_first());
                assert(b =~= seq![b[0]] + b.drop_first());
            }
        } else {
            vstd::utf8::char_u32_cast(a[0], a[0] as u32);
            vstd::utf8::char_u32_cast(b[0], b[0] as u32);
        }
    } else if a.len() == 0 && b.len() == 0 {
        assert(a =~= b);
    }
}

pub proof fn lemma_seq_lt_asymmetric(a: Seq<char>, b: Seq<char>)
    requires
        seq_lt(a, b),
    ensures
        !seq_lt(b, a),
        a != b,
{
    lemma_seq_lt_irreflexive(a);
    if seq_lt(b, a) {
        lemma_seq_lt_transitive(a, b, a);
    }
}

/// Exact lexicographic comparison of two character sequences.
pub fn chars_lt(a: &Vec<char>, b: &Vec<char>) -> (r: bool)
    ensures
        r == seq_lt(a@, b@),
{
    let mut i: usize = 0;
    assert(a@.subrange(0, a@.len() as int) =~= a@);
    assert(b@.subrange(0, b@.len() as int) =~= b@);
    while i < a.len() && i < b.len() && a[i] == b[i]
        invariant
            i <= a@.len(),
            i <= b@.len(),
            seq_lt(a@, b@) == seq_lt(a@.subrange(i as int, a@.len() as int), b@.subrange(
                i as int,
                b@.len() as int,
            )),
        decreases a@.len() - i,
    {
        proof {
            let sa = a@.subrange(i as int, a@.len() as int);
            let sb = b@.subrange(i as int, b@.len() as int);
            assert(sa.drop_first() =~= a@.subrange(i + 1, a@.len() as int));
            assert(sb.drop_first() =~= b@.subrange(i + 1, b@.len() as int));
        }
        i = i + 1;
    }
    let ghost sa = a@.subrange(i as int, a@.len() as int);
    let ghost sb = b@.subrange(i as int, b@.len() as int);
    if i == b.len() {
        assert(sb.len() == 0);
        false
    } else if i == a.len() {
        assert(sa.len() == 0);
        true
    } else {
        assert(sa[0] == a@[i as int]);
        assert(sb[0] == b@[i as int]);
        let x: u32 = a[i] as u32;
        let y: u32 = b[i] as u32;
        x < y
    }
}

/// Keys strictly increasing: the order and the uniqueness of a `BTreeMap`'s keys.
pub open spec fn sorted_keys<V>(s: Seq<(String, V)>) -> bool {
    forall|i: int, j: int| 0 <= i < j < s.len() ==> seq_lt(#[trigger] s[i].0@, #[trigger] s[j].0@)
}

pub open spec fn has_key<V>(s: Seq<(String, V)>, k: Seq<char>) -> bool {
    exists|i: int| 0 <= i < s.len() && (#[trigger] s[i]).0@ == k
}

/// The value stored under `k` (meaningful when `has_key(s, k)`).
pub open spec fn value_at<V>(s: Seq<(String, V)>, k: Seq<char>) -> V {
    s[choose|i: int| 0 <= i < s.len() && (#[trigger] s[i]).0@ == k].1
}

pub open spec fn lookup<V>(s: Seq<(String, V)>, k: Seq<char>) -> Option<V> {
    if has_key(s, k) {
        Some(value_at(s, k))
    } else {
        None
    }
}

pub proof fn lemma_sorted_distinct<V>(s: Seq<(String, V)>, i: int, j: int)
    requires
        sorted_keys(s),
        0 <= i < s.len(),
        0 <= j < s.len(),
        i != j,
    ensures
        s[i].0@ != s[j].0@,
{
    if i < j {
        lemma_seq_lt_asymmetric(s[i].0@, s[j].0@);
    } else {
        lemma_seq_lt_asymmetric(s[j].0@, s[i].0@);
    }
}

/// In a sorted sequence, the entry found at position `i` is what `lookup` reports.
pub proof fn lemma_lookup_at<V>(s: Seq<(String, V)>, n: int)
    requires
        sorted_keys(s),
        0 <= n < s.len(),
    ensures
        lookup(s, s[n].0@) == Some(s[n].1),
{
    let k = s[n].0@;
    assert(0 <= n < s.len() && (s[n]).0@ == k);
    assert(has_key(s, k));
    assert forall|i: int| 0 <= i < s.len() && (#[trigger] s[i]).0@ == k implies i == n by {
        if i != n {
            lemma_sorted_distinct(s, n, i);
        }
    }
}

/// `after` holds `v` under `k` and what `before` held under every other key.
pub open spec fn inserted<V>(before: Seq<(String, V)>, after: Seq<(String, V)>, k: Seq<char>, v: V) -> bool {
    &&& sorted_keys(after)
    &&& lookup(after, k) == Some(v)
    &&& forall|q: Seq<char>| q != k ==> lookup(after, q) == lookup(before, q)
    &&& has_key(before, k) ==> after.len() == before.len()
    &&& !has_key(before, k) ==> after.len() == before.len() + 1
}

/// `after` holds nothing under `k` and what `before` held under every other
/// key; `r` is what `before` held under `k`.
pub open spec fn removed<V>(before: Seq<(String, V)>, after: Seq<(String, V)>, k: Seq<char>, r: Option<V>) -> bool {
    &&& sorted_keys(after)
    &&& r == lookup(before, k)
    &&& lookup(after, k) is None
    &&& forall|q: Seq<char>| q != k ==> lookup(after, q) == lookup(before, q)
}

/// A map from strings to values, sorted by key.
pub struct StrMap<V> {
    entries: Vec<(String, V)>,
}

impl<V> StrMap<V> {
    #[verifier::type_invariant]
    spec fn wf(self) -> bool {
        sorted_keys(self.entries@)
    }

    /// The entries in key order.
    pub closed spec fn view(&self) -> Seq<(String, V)> {
        self.entries@
    }

    pub fn new() -> (m: Self)
        ensures
            m@ == Seq::<(String, V)>::empty(),
    {
        StrMap { entries: Vec::new() }
    }

    pub fn len(&self) -> (n: usize)
        ensures
            n == self@.len(),
    {
        self.entries.len()
    }

    pub fn is_empty(&self) -> (b: bool)
        ensures
            b == (self@.len() == 0),
    {
        self.entries.len() == 0
    }

    /// The entries in key order.
    pub fn entries(&self) -> (e: &Vec<(String, V)>)
        ensures
            e@ == self@,
            sorted_keys(self@),
    {
        proof {
            use_type_invariant(self);
        }
        &self.entries
    }

    /// Position of the entry whose key is `k`.
    pub fn position(&self, k: &Vec<char>) -> (r: Option<usize>)
        ensures
            match r {
                Some(i) => i < self@.len() && self@[i as int].0@ == k@,
                None => !has_key(self@, k@),
            },
    {
        let mut i: usize = 0;
        while i < self.entries.len()
            invariant
                i <= self.entries@.len(),
                forall|j: int| 0 <= j < i ==> (#[trigger] self.entries@[j]).0@ != k@,
            decreases self.entries@.len() - i,
        {
            let key = chars_of(self.entries[i].0.as_str());
            if chars_eq(&key, k) {
                return Some(i);
            }
            i = i + 1;
        }
        None
    }

    pub fn get(&self, k: &Vec<char>) -> (r: Option<&V>)
        ensures
            match r {
                Some(v) => lookup(self@, k@) == Some(*v),
                None => lookup(self@, k@) is None,
            },
    {
        proof {
            use_type_invariant(self);
        }
        match self.position(k) {
            Some(i) => {
                proof {
                    lemma_lookup_at(self@, i as int);
                }
                Some(&self.entries[i].1)
            },
            None => None,
        }
    }

    pub fn contains_key(&self, k: &Vec<char>) -> (b: bool)
        ensures
            b == has_key(self@, k@),
    {
        match self.position(k) {
            Some(_) => true,
            None => false,
        }
    }

    fn key_before(&self, i: usize, k: &Vec<char>) -> (r: bool)
        requires
            i < self@.len(),
        ensures
            r == seq_lt(self@[i as int].0@, k@),
    {
        let key = chars_of(self.entries[i].0.as_str());
        chars_lt(&key, k)
    }

    /// Inserts `v` under `k`, replacing any value already stored there.
    pub fn insert(&mut self, k: String, v: V)
        ensures
            inserted(old(self)@, final(self)@, k@, v),
    {
        proof {
            use_type_invariant(&*self);
        }
        let kc = chars_of(k.as_str());
        let ghost old_s = self.entries@;
        let mut i: usize = 0;
        while i < self.entries.len() && self.key_before(i, &kc)
            invariant
                old_s == self.entries@,
                sorted_keys(old_s),
                kc@ == k@,
                i <= old_s.len(),
                forall|j: int| 0 <= j < i ==> seq_lt((#[trigger] old_s[j]).0@, k@),
            decreases old_s.len() - i,
        {
            i = i + 1;
        }
        proof {
            assert forall|j: int| 0 <= j < i implies (#[trigger] old_s[j]).0@ != k@ by {
                lemma_seq_lt_asymmetric(old_s[j].0@, k@);
            }
        }
        if i < self.entries.len() {
            let key = chars_of(self.entries[i].0.as_str());
            if chars_eq(&key, &kc) {
                let ghost ki = old_s[i as int].0;
                let mut e: Vec<(String, V)> = Vec::new();
                std::mem::swap(&mut e, &mut self.entries);
                e.set(i, (k, v));
                proof {
                    let s = e@;
                    assert(s[i as int].0@ == ki@);
                    assert(sorted_keys(s)) by {
                        assert forall|a: int, b: int| 0 <= a < b < s.len() implies seq_lt(
                            #[trigger] s[a].0@,
                            #[trigger] s[b].0@,
                        ) by {
                            assert(old_s[a].0@ == s[a].0@ || a == i);
                            assert(old_s[b].0@ == s[b].0@ || b == i);
                        }
                    }
                    lemma_lookup_at(s, i as int);
                    assert(has_key(old_s, k@));
                    assert forall|q: Seq<char>| q != k@ implies lookup(s, q) == lookup(
                        old_s,
                        q,
                    ) by {
                        if has_key(old_s, q) {
                            let j = choose|j: int| 0 <= j < old_s.len() && (#[trigger] old_s[j]).0@ == q;
                            assert(s[j] == old_s[j]);
                            lemma_lookup_at(s, j);
                            lemma_lookup_at(old_s, j);
                        }
                        if has_key(s, q) {
                            let j = choose|j: int| 0 <= j < s.len() && (#[trigger] s[j]).0@ == q;
                            assert(s[j] == old_s[j]);
                        }
                    }
                }
                self.entries = e;
                return;
            }
        }
        proof {
            if i < old_s.len() {
                lemma_seq_lt_total(old_s[i as int].0@, k@);
            }
        }
        let mut e: Vec<(String, V)> = Vec::new();
        std::mem::swap(&mut e, &mut self.entries);
        e.insert(i, (k, v));
        proof {
            let s = e@;
            assert(s[i as int].0@ == k@);
            assert forall|j: int| i < j < s.len() implies seq_lt(k@, #[trigger] s[j].0@) by {
                assert(s[j] == old_s[j - 1]);
                if j - 1 > i {
                    lemma_seq_lt_transitive(k@, old_s[i as int].0@, old_s[j - 1].0@);
                }
            }
            assert(sorted_keys(s)) by {
                assert forall|a: int, b: int| 0 <= a < b < s.len() implies seq_lt(
                    #[trigger] s[a].0@,
                    #[trigger] s[b].0@,
                ) by {
                    if b < i {
                        assert(s[a] == old_s[a] && s[b] == old_s[b]);
                    } else if b == i {
                        assert(s[a] == old_s[a]);
                    } else if a < i {
                        assert(s[a] == old_s[a] && s[b] == old_s[b - 1]);
                    } else if a == i {
                    } else {
                        assert(s[a] == old_s[a - 1] && s[b] == old_s[b - 1]);
                    }
                }
            }
            lemma_lookup_at(s, i as int);
            assert(!has_key(old_s, k@)) by {
                if has_key(old_s, k@) {
                    let j = choose|j: int| 0 <= j < old_s.len() && (#[trigger] old_s[j]).0@ == k@;
                    if j >= i {
                        if j > i {
                            lemma_seq_lt_transitive(k@, old_s[i as int].0@, old_s[j].0@);
                        }
                        lemma_seq_lt_irreflexive(k@);
                    }
                }
            }
            assert forall|q: Seq<char>| q != k@ implies lookup(s, q) == lookup(old_s, q) by {
                if has_key(old_s, q) {
                    let j = choose|j: int| 0 <= j < old_s.len() && (#[trigger] old_s[j]).0@ == q;
                    let j2 = if j < i {
                        j
                    } else {
                        j + 1
                    };
                    assert(s[j2] == old_s[j]);
                    lemma_lookup_at(s, j2);
                    lemma_lookup_at(old_s, j);
                }
                if has_key(s, q) {
                    let j = choose|j: int| 0 <= j < s.len() && (#[trigger] s[j]).0@ == q;
                    if j < i {
                        assert(s[j] == old_s[j]);
                    } else if j > i {
                        assert(s[j] == old_s[j - 1]);
                    }
                }
            }
        }
        self.entries = e;
    }

    /// Removes the entry under `k`, handing back what was stored there.
    pub fn remove(&mut self, k: &Vec<char>) -> (r: Option<V>)
        ensures
            removed(old(self)@, final(self)@, k@, r),
    {
        proof {
            use_type_invariant(&*self);
        }
        let ghost old_s = self.entries@;
        match self.position(k) {
            Some(i) => {
                proof {
                    lemma_lookup_at(old_s, i as int);
                }
                let mut e: Vec<(String, V)> = Vec::new();
                std::mem::swap(&mut e, &mut self.entries);
                let (_key, val) = e.remove(i);
                proof {
                    let s = e@;
                    assert(sorted_keys(s)) by {
                        assert forall|a: int, b: int| 0 <= a < b < s.len() implies seq_lt(
                            #[trigger] s[a].0@,
                            #[trigger] s[b].0@,
                        ) by {
                            let a2 = if a < i {
                                a
                            } else {
                                a + 1
                            };
                            let b2 = if b < i {
                                b
                            } else {
                                b + 1
                            };
                            assert(s[a] == old_s[a2] && s[b] == old_s[b2]);
                        }
                    }
                    assert(!has_key(s, k@)) by {
                        if has_key(s, k@) {
                            let j = choose|j: int| 0 <= j < s.len() && (#[trigger] s[j]).0@ == k@;
                            let j2 = if j < i {
                                j
                            } else {
                                j + 1
                            };
                            assert(s[j] == old_s[j2]);
                            lemma_sorted_distinct(old_s, i as int, j2);
                        }
                    }
                    assert forall|q: Seq<char>| q != k@ implies lookup(s, q) == lookup(old_s, q) by {
                        if has_key(old_s, q) {
                            let j = choose|j: int| 0 <= j < old_s.len() && (#[trigger] old_s[j]).0@ == q;
                            assert(j != i);
                            let j2 = if j < i {
                                j
                            } else {
                                j - 1
                            };
                            assert(s[j2] == old_s[j]);
                            lemma_lookup_at(s, j2);
                            lemma_lookup_at(old_s, j);
                        }
                        if has_key(s, q) {
                            let j = choose|j: int| 0 <= j < s.len() && (#[trigger] s[j]).0@ == q;
                            let j2 = if j < i {
                                j
                            } else {
                                j + 1
                            };
                            assert(s[j] == old_s[j2]);
                        }
                    }
                }
                self.entries = e;
                Some(val)
            },
            None => None,
        }
    }
}

impl<V: Clone> Clone for StrMap<V> {
    /// Copies the entries; each value through its own `clone`.
    fn clone(&self) -> (r: Self)
        ensures
            r@.len() == self@.len(),
            forall|i: int|
                0 <= i < self@.len() ==> (#[trigger] r@[i]).0 == self@[i].0 && cloned::<V>(
                    self@[i].1,
                    r@[i].1,
                ),
    {
        proof {
            use_type_invariant(self);
        }
        let mut out: Vec<(String, V)> = Vec::new();
        let mut i: usize = 0;
        while i < self.entries.len()
            invariant
                i <= self.entries@.len(),
                out@.len() == i,
                sorted_keys(self.entries@),
                forall|j: int|
                    0 <= j < i ==> (#[trigger] out@[j]).0 == self.entries@[j].0 && cloned::<V>(
                        self.entries@[j].1,
                        out@[j].1,
                    ),
            decreases self.entries@.len() - i,
        {
            let k = self.entries[i].0.clone();
            let v = self.entries[i].1.clone();
            out.push((k, v));
            i = i + 1;
        }
        assert(sorted_keys(out@)) by {
            assert forall|a: int, b: int| 0 <= a < b < out@.len() implies seq_lt(
                #[trigger] out@[a].0@,
                #[trigger] out@[b].0@,
            ) by {
                assert(out@[a].0 == self.entries@[a].0);
                assert(out@[b].0 == self.entries@[b].0);
            }
        }
        StrMap { entries: out }
    }
}

/// The text stored under `k`.
pub open spec fn text_at(m: Seq<(String, String)>, k: Seq<char>) -> Option<Seq<char>> {
    match lookup(m, k) {
        Some(v) => Some(v@),
        None => None,
    }
}

/// In a sorted sequence, the value under `k` is the one at the position holding `k`.
pub proof fn lemma_lookup_key<V>(s: Seq<(String, V)>, k: Seq<char>)
    requires
        sorted_keys(s),
    ensures
        has_key(s, k) ==> exists|i: int|
            0 <= i < s.len() && (#[trigger] s[i]).0@ == k && lookup(s, k) == Some(s[i].1),
        !has_key(s, k) ==> lookup(s, k) is None,
{
    if has_key(s, k) {
        let i = choose|i: int| 0 <= i < s.len() && (#[trigger] s[i]).0@ == k;
        lemma_lookup_at(s, i);
    }
}

impl StrMap<String> {
    /// Copies every entry of `other` in, replacing what is stored under its keys.
    pub fn extend_from(&mut self, other: &StrMap<String>)
        ensures
            forall|k: Seq<char>|
                text_at(final(self)@, k) == match text_at(other@, k) {
                    Some(v) => Some(v),
                    None => text_at(old(self)@, k),
                },
    {
        let src = other.entries();
        let ghost before = self@;
        let mut i: usize = 0;
        while i < src.len()
            invariant
                i <= src@.len(),
                src@ == other@,
                sorted_keys(src@),
                forall|k: Seq<char>|
                    text_at(self@, k) == if exists|j: int| 0 <= j < i && (#[trigger] src@[j]).0@ == k {
                        Some(src@[choose|j: int| 0 <= j < i && (#[trigger] src@[j]).0@ == k].1@)
                    } else {
                        text_at(before, k)
                    },
            decreases src@.len() - i,
        {
            let key = src[i].0.clone();
            let val = src[i].1.clone();
            let ghost prev = self@;
            self.insert(key, val);
            assert forall|k: Seq<char>|
                text_at(self@, k) == if exists|j: int| 0 <= j < i + 1 && (#[trigger] src@[j]).0@ == k {
                    Some(src@[choose|j: int| 0 <= j < i + 1 && (#[trigger] src@[j]).0@ == k].1@)
                } else {
                    text_at(before, k)
                } by {
                if k == src@[i as int].0@ {
                    assert(src@[i as int].0@ == k);
                    let j = choose|j: int| 0 <= j < i + 1 && (#[trigger] src@[j]).0@ == k;
                    if j != i {
                        lemma_sorted_distinct(src@, i as int, j);
                    }
                } else {
                    assert(text_at(self@, k) == text_at(prev, k));
                    if exists|j: int| 0 <= j < i + 1 && (#[trigger] src@[j]).0@ == k {
                        let j = choose|j: int| 0 <= j < i + 1 && (#[trigger] src@[j]).0@ == k;
                        assert(j != i);
                        assert(exists|j: int| 0 <= j < i && (#[trigger] src@[j]).0@ == k);
                        let j2 = choose|j: int| 0 <= j < i && (#[trigger] src@[j]).0@ == k;
                        if j2 != j {
                            lemma_sorted_distinct(src@, j2, j);
                        }
                    }
                }
            }
            i = i + 1;
        }
        assert forall|k: Seq<char>|
            text_at(self@, k) == match text_at(other@, k) {
                Some(v) => Some(v),
                None => text_at(before, k),
            } by {
            lemma_lookup_key(src@, k);
            if exists|j: int| 0 <= j < src@.len() && (#[trigger] src@[j]).0@ == k {
                let j = choose|j: int| 0 <= j < src@.len() && (#[trigger] src@[j]).0@ == k;
                assert(has_key(src@, k));
                let w = choose|w: int|
                    0 <= w < src@.len() && (#[trigger] src@[w]).0@ == k && lookup(src@, k) == Some(
                        src@[w].1,
                    );
                if w != j {
                    lemma_sorted_distinct(src@, w, j);
                }
            }
        }
    }

    /// A copy with the same entries.
    pub fn duplicate(&self) -> (r: Self)
        ensures
            r@ == self@,
    {
        let r = self.clone();
        assert forall|i: int| 0 <= i < self@.len() implies #[trigger] r@[i] == self@[i] by {
            assert(r@[i].0 == self@[i].0);
            assert(cloned::<String>(self@[i].1, r@[i].1));
        }
        assert(r@ =~= self@);
        r
    }
}

} // verus!
