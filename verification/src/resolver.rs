//! Version resolution: picking one record for a user's version expression.
//! An exact display-token match always wins and the newest one of those is
//! taken; otherwise the newest record whose ordering tuple satisfies the
//! range expression is taken; range semantics come from the `semver` crate
//! behind two trusted wrappers.

use vstd::prelude::*;
use crate::strutil::str_eq;
use crate::version::{
    SemVer, SemVerView, spec_version_lt, version_lt, lemma_version_lt_trans,
    lemma_version_lt_irrefl,
};

verus! {

/// What `semver::VersionReq::parse` accepts: a function of the text alone.
pub uninterp spec fn req_parse_ok(req: Seq<char>) -> bool;

/// What `semver::VersionReq::matches` answers for a version tuple: a
/// function of the request text and the tuple alone.
pub uninterp spec fn req_matches(req: Seq<char>, v: SemVerView) -> bool;

/// Relies on semver::VersionReq::parse: whether the request text is a
/// well-formed range expression depends on the text alone.
#[verifier::external_body]
fn req_check(req: &str) -> (r: bool)
    ensures
        r == req_parse_ok(req@),
{
    semver::VersionReq::parse(req).is_ok()
}

/// Relies on semver::VersionReq::parse and semver::VersionReq::matches,
/// with semver::Prerelease::new and semver::BuildMetadata::new carrying the
/// tuple's tags over; the answer depends on the request text and the tuple
/// alone.
#[verifier::external_body]
fn req_match(req: &str, v: &SemVer) -> (r: Option<bool>)
    ensures
        (r is Some) == req_parse_ok(req@),
        r is Some ==> r->0 == req_matches(req@, v@),
{
    let rq = match semver::VersionReq::parse(req) {
        Ok(q) => q,
        Err(_) => return None,
    };
    let sv = semver::Version {
        major: v.major,
        minor: v.minor,
        patch: v.patch,
        pre: semver::Prerelease::new(&v.pre).unwrap_or(semver::Prerelease::EMPTY),
        build: semver::BuildMetadata::new(&v.build).unwrap_or(semver::BuildMetadata::EMPTY),
    };
    Some(rq.matches(&sv))
}

/// Whether `v` satisfies the range `expr`; `None` when `expr` is not a
/// well-formed range expression.
pub fn matches_request(expr: &str, v: &SemVer) -> (r: Option<bool>)
    ensures
        (r is Some) == req_parse_ok(expr@),
        r is Some ==> r->0 == req_matches(expr@, v@),
{
    req_match(expr, v)
}

/// One record as the resolver sees it: the raw display token and the
/// ordering tuple.
pub struct VersionKey {
    pub display: String,
    pub sem: SemVer,
}

pub struct VersionKeyView {
    pub display: Seq<char>,
    pub sem: SemVerView,
}

impl View for VersionKey {
    type V = VersionKeyView;

    open spec fn view(&self) -> VersionKeyView {
        VersionKeyView { display: self.display@, sem: self.sem@ }
    }
}

pub enum ResolveOutcome {
    Exact(usize),
    Range(usize),
    NoMatch,
    InvalidExpression,
}

/// Resolution over a record list. An exact display match takes precedence
/// over every range match; among several candidates of one kind the newest
/// ordering tuple wins.
pub fn resolve(keys: &Vec<VersionKey>, expr: &str, exact: &str) -> (r: ResolveOutcome)
    ensures
        (r is InvalidExpression) == !req_parse_ok(expr@),
        r matches ResolveOutcome::Exact(i) ==> {
            &&& i < keys@.len()
            &&& keys@[i as int]@.display == exact@
            &&& forall|j: int|
                0 <= j < keys@.len() && (#[trigger] keys@[j])@.display == exact@
                    ==> !spec_version_lt(keys@[i as int]@.sem, keys@[j]@.sem)
        },
        r matches ResolveOutcome::Range(i) ==> {
            &&& i < keys@.len()
            &&& forall|j: int| 0 <= j < keys@.len() ==> (#[trigger] keys@[j])@.display != exact@
            &&& req_matches(expr@, keys@[i as int]@.sem)
            &&& forall|j: int|
                0 <= j < keys@.len() && req_matches(expr@, (#[trigger] keys@[j])@.sem)
                    ==> !spec_version_lt(keys@[i as int]@.sem, keys@[j]@.sem)
        },
        r is NoMatch ==> forall|j: int|
            0 <= j < keys@.len() ==> (#[trigger] keys@[j])@.display != exact@ && !req_matches(
                expr@,
                keys@[j]@.sem,
            ),
        req_parse_ok(expr@) && (exists|j: int|
            0 <= j < keys@.len() && (#[trigger] keys@[j])@.display == exact@) ==> r is Exact,
{
    if !req_check(expr) {
        return ResolveOutcome::InvalidExpression;
    }
    let n = keys.len();
    let mut best_exact: Option<usize> = None;
    let mut best_range: Option<usize> = None;
    let mut i: usize = 0;
    while i < n
        invariant
            i <= n,
            n == keys@.len(),
            req_parse_ok(expr@),
            best_exact matches Some(b) ==> b < i && keys@[b as int]@.display == exact@
                && forall|j: int|
                0 <= j < i && (#[trigger] keys@[j])@.display == exact@ ==> !spec_version_lt(
                    keys@[b as int]@.sem,
                    keys@[j]@.sem,
                ),
            best_exact is None ==> forall|j: int|
                0 <= j < i ==> (#[trigger] keys@[j])@.display != exact@,
            best_range matches Some(b) ==> b < i && req_matches(expr@, keys@[b as int]@.sem)
                && forall|j: int|
                0 <= j < i && req_matches(expr@, (#[trigger] keys@[j])@.sem) ==> !spec_version_lt(
                    keys@[b as int]@.sem,
                    keys@[j]@.sem,
                ),
            best_range is None ==> forall|j: int|
                0 <= j < i ==> !req_matches(expr@, (#[trigger] keys@[j])@.sem),
        decreases n - i,
    {
        if str_eq(keys[i].display.as_str(), exact) {
            match best_exact {
                None => {
                    proof {
                        lemma_version_lt_irrefl(keys@[i as int]@.sem);
                    }
                    best_exact = Some(i);
                },
                Some(b) => {
                    if version_lt(&keys[b].sem, &keys[i].sem) {
                        proof {
                            assert forall|j: int|
                                0 <= j < i + 1 && (#[trigger] keys@[j])@.display
                                    == exact@ implies !spec_version_lt(
                                keys@[i as int]@.sem,
                                keys@[j]@.sem,
                            ) by {
                                lemma_version_lt_irrefl(keys@[i as int]@.sem);
                                if j < i && spec_version_lt(keys@[i as int]@.sem, keys@[j]@.sem) {
                                    lemma_version_lt_trans(
                                        keys@[b as int]@.sem,
                                        keys@[i as int]@.sem,
                                        keys@[j]@.sem,
                                    );
                                }
                            }
                        }
                        best_exact = Some(i);
                    }
                },
            }
        }
        let m = match req_match(expr, &keys[i].sem) {
            Some(b) => b,
            None => {
                proof {
                    assert(false);
                }
                false
            },
        };
        if m {
            match best_range {
                None => {
                    proof {
                        lemma_version_lt_irrefl(keys@[i as int]@.sem);
                    }
                    best_range = Some(i);
                },
                Some(b) => {
                    if version_lt(&keys[b].sem, &keys[i].sem) {
                        proof {
                            assert forall|j: int|
                                0 <= j < i + 1 && req_matches(
                                    expr@,
                                    (#[trigger] keys@[j])@.sem,
                                ) implies !spec_version_lt(keys@[i as int]@.sem, keys@[j]@.sem) by {
                                lemma_version_lt_irrefl(keys@[i as int]@.sem);
                                if j < i && spec_version_lt(keys@[i as int]@.sem, keys@[j]@.sem) {
                                    lemma_version_lt_trans(
                                        keys@[b as int]@.sem,
                                        keys@[i as int]@.sem,
                                        keys@[j]@.sem,
                                    );
                                }
                            }
                        }
                        best_range = Some(i);
                    }
                },
            }
        }
        i = i + 1;
    }
    match best_exact {
        Some(i) => ResolveOutcome::Exact(i),
        None => match best_range {
            Some(i) => ResolveOutcome::Range(i),
            None => ResolveOutcome::NoMatch,
        },
    }
}

/// Whether two ordering tuples are the same tuple.
pub fn sem_eq(a: &SemVer, b: &SemVer) -> (r: bool)
    ensures
        r == (a@ == b@),
{
    let r = a.major == b.major && a.minor == b.minor && a.patch == b.patch && str_eq(
        a.pre.as_str(),
        b.pre.as_str(),
    ) && str_eq(a.build.as_str(), b.build.as_str());
    proof {
        if a@.major == b@.major && a@.minor == b@.minor && a@.patch == b@.patch && a@.pre == b@.pre
            && a@.build == b@.build {
            assert(a@ == b@);
        }
    }
    r
}

/// Record `i` of `r` was one of `keys`, by view.
pub open spec fn spec_drawn_from(r: Seq<VersionKey>, keys: Seq<VersionKey>, i: int) -> bool {
    exists|j: int| 0 <= j < keys.len() && (#[trigger] keys[j])@ == r[i]@
}

/// Some record of `r` keeps the ordering tuple of record `j` of `keys`.
pub open spec fn spec_sem_kept(keys: Seq<VersionKey>, r: Seq<VersionKey>, j: int) -> bool {
    exists|a: int| 0 <= a < r.len() && (#[trigger] r[a])@.sem == keys[j]@.sem
}

/// Keeps the first record of every ordering tuple: afterwards no two
/// records share a tuple, every kept record was given, and every given
/// tuple is kept.
pub fn dedup_keys(keys: Vec<VersionKey>) -> (r: Vec<VersionKey>)
    ensures
        forall|i: int, j: int|
            0 <= i < j < r@.len() ==> (#[trigger] r@[i])@.sem != (#[trigger] r@[j])@.sem,
        forall|i: int| 0 <= i < r@.len() ==> spec_drawn_from(r@, keys@, i),
        forall|j: int| 0 <= j < keys@.len() ==> spec_sem_kept(keys@, r@, j),
{
    let mut r: Vec<VersionKey> = Vec::new();
    let n = keys.len();
    let mut i: usize = 0;
    while i < n
        invariant
            i <= n,
            n == keys@.len(),
            forall|a: int, b: int|
                0 <= a < b < r@.len() ==> (#[trigger] r@[a])@.sem != (#[trigger] r@[b])@.sem,
            forall|a: int| 0 <= a < r@.len() ==> spec_drawn_from(r@, keys@, a),
            forall|j: int| 0 <= j < i ==> spec_sem_kept(keys@, r@, j),
        decreases n - i,
    {
        let mut seen = false;
        let m = r.len();
        let mut t: usize = 0;
        while t < m
            invariant
                t <= m,
                m == r@.len(),
                i < n,
                n == keys@.len(),
                seen == exists|a: int|
                    0 <= a < t && (#[trigger] r@[a])@.sem == keys@[i as int]@.sem,
            decreases m - t,
        {
            if sem_eq(&r[t].sem, &keys[i].sem) {
                seen = true;
            }
            t = t + 1;
        }
        let ghost pre_r = r@;
        if !seen {
            let k = VersionKey { display: keys[i].display.clone(), sem: keys[i].sem.duplicate() };
            proof {
                assert(k@ == keys@[i as int]@);
            }
            r.push(k);
            proof {
                assert forall|a: int| 0 <= a < r@.len() implies spec_drawn_from(
                    r@,
                    keys@,
                    a,
                ) by {
                    if a < pre_r.len() {
                        assert(r@[a] == pre_r[a]);
                        assert(spec_drawn_from(pre_r, keys@, a));
                        let j = choose|j: int|
                            0 <= j < keys@.len() && (#[trigger] keys@[j])@ == pre_r[a]@;
                        assert(keys@[j]@ == r@[a]@);
                    } else {
                        assert(r@[a]@ == keys@[i as int]@);
                    }
                }
            }
        }
        proof {
            assert forall|j: int| 0 <= j < i + 1 implies spec_sem_kept(keys@, r@, j) by {
                if j == i {
                    if seen {
                        let a = choose|a: int|
                            0 <= a < pre_r.len() && (#[trigger] pre_r[a])@.sem
                                == keys@[i as int]@.sem;
                        assert(r@[a] == pre_r[a]);
                        assert(r@[a]@.sem == keys@[j]@.sem);
                    } else {
                        assert(r@[r@.len() - 1]@.sem == keys@[j]@.sem);
                    }
                } else {
                    assert(spec_sem_kept(keys@, pre_r, j));
                    let a = choose|a: int|
                        0 <= a < pre_r.len() && (#[trigger] pre_r[a])@.sem == keys@[j]@.sem;
                    assert(r@[a] == pre_r[a]);
                    assert(keys@[j]@.sem == r@[a]@.sem);
                }
            }
        }
        i = i + 1;
    }
    r
}

/// A permutation keeps every record: each element of one list stands
/// somewhere in the other.
pub proof fn lemma_permutation_membership<T>(a: Seq<T>, b: Seq<T>)
    requires
        a.to_multiset() == b.to_multiset(),
    ensures
        forall|i: int| 0 <= i < a.len() ==> b.contains(#[trigger] a[i]),
{
    broadcast use vstd::seq_lib::group_to_multiset_ensures;
    broadcast use vstd::multiset::group_multiset_axioms;

    assert forall|i: int| 0 <= i < a.len() implies b.contains(#[trigger] a[i]) by {
        assert(a.contains(a[i]));
        assert(a.to_multiset().count(a[i]) > 0);
        assert(b.to_multiset().count(a[i]) > 0);
    }
}

// ---------------------------------------------------------------------------
// Sorting, oldest first, for the listings.
// ---------------------------------------------------------------------------

/// Sorts records by their ordering tuples, oldest first: no later record is
/// older than an earlier one, and the records are exactly those given.
pub fn sort_by_version(keys: Vec<VersionKey>) -> (r: Vec<VersionKey>)
    ensures
        r@.len() == keys@.len(),
        forall|i: int, j: int|
            0 <= i < j < r@.len() ==> !spec_version_lt(
                (#[trigger] r@[j])@.sem,
                (#[trigger] r@[i])@.sem,
            ),
        r@.to_multiset() == keys@.to_multiset(),
{
    broadcast use vstd::seq_lib::group_to_multiset_ensures;

    let mut src = keys;
    let mut out: Vec<VersionKey> = Vec::new();
    let ghost total = keys@.to_multiset();
    proof {
        assert(out@.to_multiset().add(src@.to_multiset()) =~= total);
    }
    while src.len() > 0
        invariant
            out@.to_multiset().add(src@.to_multiset()) == total,
            total == keys@.to_multiset(),
            out@.len() + src@.len() == keys@.len(),
            forall|i: int, j: int|
                0 <= i < j < out@.len() ==> !spec_version_lt(
                    (#[trigger] out@[j])@.sem,
                    (#[trigger] out@[i])@.sem,
                ),
            forall|p: int, q: int|
                0 <= p < out@.len() && 0 <= q < src@.len() ==> !spec_version_lt(
                    (#[trigger] src@[q])@.sem,
                    (#[trigger] out@[p])@.sem,
                ),
        decreases src@.len(),
    {
        let m = src.len();
        let mut best: usize = 0;
        let mut t: usize = 1;
        proof {
            lemma_version_lt_irrefl(src@[0]@.sem);
        }
        while t < m
            invariant
                best < t <= m,
                m == src@.len(),
                forall|u: int|
                    0 <= u < t ==> !spec_version_lt(
                        (#[trigger] src@[u])@.sem,
                        src@[best as int]@.sem,
                    ),
            decreases m - t,
        {
            if version_lt(&src[t].sem, &src[best].sem) {
                proof {
                    assert forall|u: int|
                        0 <= u < t + 1 implies !spec_version_lt(
                        (#[trigger] src@[u])@.sem,
                        src@[t as int]@.sem,
                    ) by {
                        lemma_version_lt_irrefl(src@[t as int]@.sem);
                        if u < t && spec_version_lt(src@[u]@.sem, src@[t as int]@.sem) {
                            lemma_version_lt_trans(
                                src@[u]@.sem,
                                src@[t as int]@.sem,
                                src@[best as int]@.sem,
                            );
                        }
                    }
                }
                best = t;
            }
            t = t + 1;
        }
        let ghost old_src = src@;
        let ghost old_out = out@;
        let x = src.remove(best);
        out.push(x);
        proof {
            broadcast use vstd::multiset::group_multiset_axioms;
            broadcast use vstd::seq_lib::group_to_multiset_ensures;

            assert(out@ =~= old_out.push(x));
            assert(old_src[best as int] == x);
            assert(old_src.contains(x));
            assert(old_src.to_multiset().count(x) > 0);
            assert(out@.to_multiset().add(src@.to_multiset()) =~= total);
            assert forall|p: int, q: int|
                0 <= p < out@.len() && 0 <= q < src@.len() implies !spec_version_lt(
                (#[trigger] src@[q])@.sem,
                (#[trigger] out@[p])@.sem,
            ) by {
                let qq = if q < best { q } else { q + 1 };
                assert(src@[q] == old_src[qq]);
                if p < old_out.len() {
                    assert(out@[p] == old_out[p]);
                } else {
                    assert(out@[p] == x);
                }
            }
        }
    }
    out
}

} // verus!
