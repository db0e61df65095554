//! Semantic versions as plain data, and their precedence order.
use vstd::prelude::*;

use crate::strmap::{
    chars_lt, lemma_seq_lt_asymmetric, lemma_seq_lt_irreflexive, lemma_seq_lt_total,
    lemma_seq_lt_transitive, seq_lt,
};
use crate::text::{chars_eq, chars_of};

verus! {

/// Outcome of a three-way comparison.
#[derive(Debug, Clone, Copy, PartialEq, Eq, Structural)]
pub enum Order {
    Less,
    Equal,
    Greater,
}

/// A pre-release or build identifier.
#[derive(Debug, Clone, PartialEq, Eq)]
pub enum SemIdent {
    Numeric(u64),
    AlphaNumeric(String),
}

/// A parsed semantic version: `major.minor.patch[-pre_release][+build]`.
#[derive(Debug)]
pub struct SemVersion {
    pub major: u64,
    pub minor: u64,
    pub patch: u64,
    pub build: Vec<SemIdent>,
    pub pre_release: Vec<SemIdent>,
}

pub enum IdentView {
    Numeric(u64),
    AlphaNumeric(Seq<char>),
}

pub struct VersionView {
    pub major: u64,
    pub minor: u64,
    pub patch: u64,
    pub pre: Seq<IdentView>,
    pub build: Seq<IdentView>,
}

impl View for SemIdent {
    type V = IdentView;

    open spec fn view(&self) -> IdentView {
        match self {
            SemIdent::Numeric(n) => IdentView::Numeric(*n),
            SemIdent::AlphaNumeric(s) => IdentView::AlphaNumeric(s@),
        }
    }
}

pub open spec fn idents_view(v: Seq<SemIdent>) -> Seq<IdentView> {
    v.map_values(|i: SemIdent| i@)
}

impl View for SemVersion {
    type V = VersionView;

    open spec fn view(&self) -> VersionView {
        VersionView {
            major: self.major,
            minor: self.minor,
            patch: self.patch,
            pre: idents_view(self.pre_release@),
            build: idents_view(self.build@),
        }
    }
}

pub open spec fn ord_u64(a: u64, b: u64) -> Order {
    if a < b {
        Order::Less
    } else if a == b {
        Order::Equal
    } else {
        Order::Greater
    }
}

pub open spec fn flip(c: Order) -> Order {
    match c {
        Order::Less => Order::Greater,
        Order::Equal => Order::Equal,
        Order::Greater => Order::Less,
    }
}

/// Identifier order: numeric identifiers before alphanumeric ones, numbers by
/// value, text lexicographically.
pub open spec fn ord_ident(a: IdentView, b: IdentView) -> Order {
    match (a, b) {
        (IdentView::Numeric(x), IdentView::Numeric(y)) => ord_u64(x, y),
        (IdentView::Numeric(_), IdentView::AlphaNumeric(_)) => Order::Less,
        (IdentView::AlphaNumeric(_), IdentView::Numeric(_)) => Order::Greater,
        (IdentView::AlphaNumeric(x), IdentView::AlphaNumeric(y)) => if seq_lt(x, y) {
            Order::Less
        } else if x == y {
            Order::Equal
        } else {
            Order::Greater
        },
    }
}

/// Lexicographic order of identifier lists (a proper prefix comes first).
pub open spec fn ord_idents(a: Seq<IdentView>, b: Seq<IdentView>) -> Order
    decreases a.len(),
{
    if a.len() == 0 && b.len() == 0 {
        Order::Equal
    } else if a.len() == 0 {
        Order::Less
    } else if b.len() == 0 {
        Order::Greater
    } else {
        match ord_ident(a[0], b[0]) {
            Order::Equal => ord_idents(a.drop_first(), b.drop_first()),
            c => c,
        }
    }
}

/// Version precedence: major, minor, patch, then a release above any of its
/// pre-releases, pre-releases by their identifiers; build metadata is ignored.
pub open spec fn precedence(a: VersionView, b: VersionView) -> Order {
    if a.major != b.major {
        ord_u64(a.major, b.major)
    } else if a.minor != b.minor {
        ord_u64(a.minor, b.minor)
    } else if a.patch != b.patch {
        ord_u64(a.patch, b.patch)
    } else if a.pre.len() == 0 && b.pre.len() == 0 {
        Order::Equal
    } else if a.pre.len() == 0 {
        Order::Greater
    } else if b.pre.len() == 0 {
        Order::Less
    } else {
        ord_idents(a.pre, b.pre)
    }
}

pub proof fn lemma_ord_ident_flip(a: IdentView, b: IdentView)
    ensures
        ord_ident(b, a) == flip(ord_ident(a, b)),
{
    match (a, b) {
        (IdentView::AlphaNumeric(x), IdentView::AlphaNumeric(y)) => {
            lemma_seq_lt_total(x, y);
            if seq_lt(x, y) {
                lemma_seq_lt_asymmetric(x, y);
            }
            if seq_lt(y, x) {
                lemma_seq_lt_asymmetric(y, x);
            }
            if x == y {
                lemma_seq_lt_irreflexive(x);
            }
        },
        _ => {},
    }
}

pub proof fn lemma_ord_ident_equal(a: IdentView, b: IdentView)
    requires
        ord_ident(a, b) == Order::Equal,
    ensures
        a == b,
{
}

pub proof fn lemma_ord_ident_trans(a: IdentView, b: IdentView, c: IdentView)
    requires
        ord_ident(a, b) != Order::Greater,
        ord_ident(b, c) != Order::Greater,
    ensures
        ord_ident(a, c) != Order::Greater,
        ord_ident(a, b) == Order::Less || ord_ident(b, c) == Order::Less ==> ord_ident(a, c)
            == Order::Less,
{
    match (a, b, c) {
        (
            IdentView::AlphaNumeric(x),
            IdentView::AlphaNumeric(y),
            IdentView::AlphaNumeric(z),
        ) => {
            if seq_lt(x, y) && seq_lt(y, z) {
                lemma_seq_lt_transitive(x, y, z);
            }
            lemma_seq_lt_total(x, z);
            if seq_lt(z, x) {
                if seq_lt(x, y) {
                    lemma_seq_lt_transitive(z, x, y);
                    lemma_seq_lt_asymmetric(z, y);
                } else if x == y && seq_lt(y, z) {
                    lemma_seq_lt_asymmetric(y, z);
                } else if x == y && y == z {
                    lemma_seq_lt_irreflexive(z);
                }
            }
            if x == z {
                if seq_lt(x, y) && seq_lt(y, z) {
                    lemma_seq_lt_irreflexive(x);
                }
                if seq_lt(x, y) && y == z {
                    lemma_seq_lt_irreflexive(x);
                }
                if x == y && seq_lt(y, z) {
                    lemma_seq_lt_irreflexive(x);
                }
            }
        },
        _ => {},
    }
}

pub proof fn lemma_ord_idents_flip(a: Seq<IdentView>, b: Seq<IdentView>)
    ensures
        ord_idents(b, a) == flip(ord_idents(a, b)),
    decreases a.len(),
{
    if a.len() > 0 && b.len() > 0 {
        lemma_ord_ident_flip(a[0], b[0]);
        lemma_ord_idents_flip(a.drop_first(), b.drop_first());
    }
}

pub proof fn lemma_ord_idents_equal(a: Seq<IdentView>, b: Seq<IdentView>)
    requires
        ord_idents(a, b) == Order::Equal,
    ensures
        a == b,
    decreases a.len(),
{
    if a.len() > 0 && b.len() > 0 {
        lemma_ord_ident_equal(a[0], b[0]);
        lemma_ord_idents_equal(a.drop_first(), b.drop_first());
        assert(a =~= seq![a[0]] + a.drop_first());
        assert(b =~= seq![b[0]] + b.drop_first());
    } else {
        assert(a =~= b);
    }
}

pub proof fn lemma_ord_idents_refl(a: Seq<IdentView>)
    ensures
        ord_idents(a, a) == Order::Equal,
    decreases a.len(),
{
    if a.len() > 0 {
        match a[0] {
            IdentView::AlphaNumeric(x) => lemma_seq_lt_irreflexive(x),
            _ => {},
        }
        lemma_ord_idents_refl(a.drop_first());
    }
}

pub proof fn lemma_ord_idents_trans(a: Seq<IdentView>, b: Seq<IdentView>, c: Seq<IdentView>)
    requires
        ord_idents(a, b) != Order::Greater,
        ord_idents(b, c) != Order::Greater,
    ensures
        ord_idents(a, c) != Order::Greater,
        ord_idents(a, b) == Order::Less || ord_idents(b, c) == Order::Less ==> ord_idents(a, c)
            == Order::Less,
    decreases a.len(),
{
    if a.len() > 0 && b.len() > 0 && c.len() > 0 {
        lemma_ord_ident_trans(a[0], b[0], c[0]);
        if ord_ident(a[0], b[0]) == Order::Equal {
            lemma_ord_ident_equal(a[0], b[0]);
        }
        if ord_ident(b[0], c[0]) == Order::Equal {
            lemma_ord_ident_equal(b[0], c[0]);
        }
        if ord_ident(a[0], b[0]) == Order::Equal && ord_ident(b[0], c[0]) == Order::Equal {
            lemma_ord_idents_trans(a.drop_first(), b.drop_first(), c.drop_first());
        }
    } else if a.len() == 0 && b.len() == 0 && c.len() == 0 {
    } else if a.len() > 0 && b.len() > 0 && c.len() == 0 {
    } else if a.len() == 0 {
    }
}

pub proof fn lemma_precedence_flip(a: VersionView, b: VersionView)
    ensures
        precedence(b, a) == flip(precedence(a, b)),
{
    lemma_ord_idents_flip(a.pre, b.pre);
}

pub proof fn lemma_precedence_refl(a: VersionView)
    ensures
        precedence(a, a) == Order::Equal,
{
    lemma_ord_idents_refl(a.pre);
}

/// `a <= b` and `b <= c` give `a <= c`, strictly when either step is strict.
pub proof fn lemma_precedence_trans(a: VersionView, b: VersionView, c: VersionView)
    requires
        precedence(a, b) != Order::Greater,
        precedence(b, c) != Order::Greater,
    ensures
        precedence(a, c) != Order::Greater,
        precedence(a, b) == Order::Less || precedence(b, c) == Order::Less ==> precedence(a, c)
            == Order::Less,
{
    if a.major == b.major && b.major == c.major && a.minor == b.minor && b.minor == c.minor
        && a.patch == b.patch && b.patch == c.patch && a.pre.len() > 0 && b.pre.len() > 0
        && c.pre.len() > 0 {
        lemma_ord_idents_trans(a.pre, b.pre, c.pre);
    }
}

pub fn ord_u64_exec(a: u64, b: u64) -> (r: Order)
    ensures
        r == ord_u64(a, b),
{
    if a < b {
        Order::Less
    } else if a == b {
        Order::Equal
    } else {
        Order::Greater
    }
}

pub fn compare_ident(a: &SemIdent, b: &SemIdent) -> (r: Order)
    ensures
        r == ord_ident(a@, b@),
{
    match (a, b) {
        (SemIdent::Numeric(x), SemIdent::Numeric(y)) => ord_u64_exec(*x, *y),
        (SemIdent::Numeric(_), SemIdent::AlphaNumeric(_)) => Order::Less,
        (SemIdent::AlphaNumeric(_), SemIdent::Numeric(_)) => Order::Greater,
        (SemIdent::AlphaNumeric(x), SemIdent::AlphaNumeric(y)) => {
            let xc = chars_of(x.as_str());
            let yc = chars_of(y.as_str());
            if chars_lt(&xc, &yc) {
                Order::Less
            } else if chars_eq(&xc, &yc) {
                Order::Equal
            } else {
                Order::Greater
            }
        },
    }
}

pub fn compare_idents(a: &Vec<SemIdent>, b: &Vec<SemIdent>) -> (r: Order)
    ensures
        r == ord_idents(idents_view(a@), idents_view(b@)),
{
    let mut i: usize = 0;
    assert(idents_view(a@).subrange(0, a@.len() as int) =~= idents_view(a@));
    assert(idents_view(b@).subrange(0, b@.len() as int) =~= idents_view(b@));
    while i < a.len() && i < b.len()
        invariant
            i <= a@.len(),
            i <= b@.len(),
            ord_idents(idents_view(a@), idents_view(b@)) == ord_idents(
                idents_view(a@).subrange(i as int, a@.len() as int),
                idents_view(b@).subrange(i as int, b@.len() as int),
            ),
        decreases a@.len() - i,
    {
        let c = compare_ident(&a[i], &b[i]);
        let ghost sa = idents_view(a@).subrange(i as int, a@.len() as int);
        let ghost sb = idents_view(b@).subrange(i as int, b@.len() as int);
        assert(sa[0] == a@[i as int]@);
        assert(sb[0] == b@[i as int]@);
        match c {
            Order::Equal => {},
            _ => {
                return c;
            },
        }
        assert(sa.drop_first() =~= idents_view(a@).subrange(i + 1, a@.len() as int));
        assert(sb.drop_first() =~= idents_view(b@).subrange(i + 1, b@.len() as int));
        i = i + 1;
    }
    if i == a.len() && i == b.len() {
        Order::Equal
    } else if i == a.len() {
        Order::Less
    } else {
        Order::Greater
    }
}

/// Version precedence, as `node_semver::Version`'s `Ord` compares.
pub fn compare_versions(a: &SemVersion, b: &SemVersion) -> (r: Order)
    ensures
        r == precedence(a@, b@),
{
    if a.major != b.major {
        return ord_u64_exec(a.major, b.major);
    }
    if a.minor != b.minor {
        return ord_u64_exec(a.minor, b.minor);
    }
    if a.patch != b.patch {
        return ord_u64_exec(a.patch, b.patch);
    }
    let la = a.pre_release.len();
    let lb = b.pre_release.len();
    if la == 0 && lb == 0 {
        Order::Equal
    } else if la == 0 {
        Order::Greater
    } else if lb == 0 {
        Order::Less
    } else {
        compare_idents(&a.pre_release, &b.pre_release)
    }
}

} // verus!
