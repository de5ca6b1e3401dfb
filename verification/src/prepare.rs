//! From a fetched catalog and a user's version expression to one pipeline
//! request: resolution with exact-match precedence, the package selection
//! for the host target, and the request the install machine runs on.

use vstd::prelude::*;
use crate::golang::{
    GolangVersion, spec_first_go_match, convert_to_go_os, convert_to_go_arch, go_install_request,
};
use crate::install::InstallRequest;
use crate::java::{
    JavaVersion, Vendor, convert_to_java_os, convert_to_java_arch, java_install_request,
};
use crate::node::{
    NodeVersion, convert_to_node_os, convert_to_node_arch, convert_to_file_name_os,
    node_install_request,
};
use crate::resolver::{
    VersionKey, VersionKeyView, ResolveOutcome, resolve, req_parse_ok, req_matches, dedup_keys,
    sort_by_version, lemma_permutation_membership, spec_drawn_from, spec_sem_kept,
};
use crate::strutil::{spec_contains, spec_lower};
use crate::version::{spec_version_lt, SemVerView};

verus! {

/// Why no request could be prepared.
#[derive(Debug, Clone, PartialEq, Eq, Structural)]
pub enum PrepareError {
    /// The expression is not a version range.
    InvalidExpression,
    /// The vendor does not accept the version text.
    InvalidVersion,
    /// No record matches the expression.
    NoSuchVersion,
    /// The matched record has no installable archive for this target.
    NoMatchedArchOrOS,
}

/// Record `i` is the newest whose display token is exactly `exact`.
pub open spec fn spec_exact_choice(keys: Seq<VersionKeyView>, exact: Seq<char>, i: int) -> bool {
    &&& 0 <= i < keys.len()
    &&& keys[i].display == exact
    &&& forall|j: int|
        0 <= j < keys.len() && (#[trigger] keys[j]).display == exact ==> !spec_version_lt(
            keys[i].sem,
            keys[j].sem,
        )
}

/// No display token is exactly `exact`, and record `i` is the newest that
/// satisfies the range.
pub open spec fn spec_range_choice(
    keys: Seq<VersionKeyView>,
    expr: Seq<char>,
    exact: Seq<char>,
    i: int,
) -> bool {
    &&& 0 <= i < keys.len()
    &&& forall|j: int| 0 <= j < keys.len() ==> (#[trigger] keys[j]).display != exact
    &&& req_matches(expr, keys[i].sem)
    &&& forall|j: int|
        0 <= j < keys.len() && req_matches(expr, (#[trigger] keys[j]).sem) ==> !spec_version_lt(
            keys[i].sem,
            keys[j].sem,
        )
}

/// Exact-match precedence: once any record's display token equals the
/// exact token, no range choice exists at all, so resolution can never
/// prefer a newer range match over an exact one.
pub proof fn lemma_exact_beats_range(keys: Seq<VersionKeyView>, exact: Seq<char>, i: int)
    requires
        spec_exact_choice(keys, exact, i),
    ensures
        forall|expr: Seq<char>, j: int| !spec_range_choice(keys, expr, exact, j),
{
    assert forall|expr: Seq<char>, j: int| !spec_range_choice(keys, expr, exact, j) by {
        if spec_range_choice(keys, expr, exact, j) {
            assert((keys[i]).display != exact);
        }
    }
}

/// Record `i` is what resolution selects.
pub open spec fn spec_choice(keys: Seq<VersionKeyView>, expr: Seq<char>, exact: Seq<char>, i: int) -> bool {
    spec_exact_choice(keys, exact, i) || spec_range_choice(keys, expr, exact, i)
}

/// Nothing matches: no exact token, and no record satisfies the range.
pub open spec fn spec_no_candidate(keys: Seq<VersionKeyView>, expr: Seq<char>, exact: Seq<char>) -> bool {
    forall|j: int|
        0 <= j < keys.len() ==> (#[trigger] keys[j]).display != exact && !req_matches(
            expr,
            keys[j].sem,
        )
}

/// The records of a Go catalog as the resolver sees them.
pub open spec fn spec_go_keys(versions: Seq<GolangVersion>) -> Seq<VersionKeyView> {
    versions.map_values(
        |v: GolangVersion| VersionKeyView { display: v.version@, sem: v.sem_version@ },
    )
}

/// Resolves a Go version expression and selects the host's package,
/// yielding the pipeline request.
pub fn go_prepare_install(
    versions: &Vec<GolangVersion>,
    expr: &str,
    host_os: &str,
    host_arch: &str,
    no_use: bool,
) -> (r: Result<(usize, InstallRequest), PrepareError>)
    ensures
        (r == Err::<(usize, InstallRequest), PrepareError>(PrepareError::InvalidExpression))
            == !req_parse_ok(expr@),
        r != Err::<(usize, InstallRequest), PrepareError>(PrepareError::InvalidVersion),
        req_parse_ok(expr@) ==> ((r == Err::<(usize, InstallRequest), PrepareError>(
            PrepareError::NoSuchVersion,
        )) == spec_no_candidate(spec_go_keys(versions@), expr@, "go"@ + expr@)),
        (r is Ok || r == Err::<(usize, InstallRequest), PrepareError>(
            PrepareError::NoMatchedArchOrOS,
        )) == (req_parse_ok(expr@) && !spec_no_candidate(
            spec_go_keys(versions@),
            expr@,
            "go"@ + expr@,
        )),
        r matches Ok(p) ==> {
            &&& spec_choice(spec_go_keys(versions@), expr@, "go"@ + expr@, p.0 as int)
            &&& p.0 < versions@.len()
            &&& exists|k: int|
                spec_first_go_match(
                    versions@[p.0 as int].packages@,
                    crate::golang::spec_go_os(host_os@),
                    crate::golang::spec_go_arch(host_arch@),
                    k,
                ) && crate::golang::spec_go_request_ok(
                    p.1,
                    versions@[p.0 as int],
                    versions@[p.0 as int].packages@[k],
                    no_use,
                )
        },
        r == Err::<(usize, InstallRequest), PrepareError>(PrepareError::NoMatchedArchOrOS)
            ==> exists|i: int|
            spec_choice(spec_go_keys(versions@), expr@, "go"@ + expr@, i) && !(exists|k: int|
                0 <= k < versions@[i].packages@.len() && GolangVersion::spec_pkg_matches(
                    #[trigger] versions@[i].packages@[k],
                    crate::golang::spec_go_os(host_os@),
                    crate::golang::spec_go_arch(host_arch@),
                )),
{
    let mut exact = String::new();
    exact.append("go");
    exact.append(expr);
    proof {
        assert(exact@ =~= "go"@ + expr@);
    }
    let mut keys: Vec<VersionKey> = Vec::new();
    let n = versions.len();
    let mut i: usize = 0;
    while i < n
        invariant
            i <= n,
            n == versions@.len(),
            keys@.len() == i,
            forall|j: int|
                0 <= j < i ==> (#[trigger] keys@[j])@ == spec_go_keys(versions@)[j],
        decreases n - i,
    {
        keys.push(versions[i].key());
        i = i + 1;
    }
    let ghost gk = spec_go_keys(versions@);
    let ghost tok = "go"@ + expr@;
    let chosen: usize = match resolve(&keys, expr, exact.as_str()) {
        ResolveOutcome::InvalidExpression => {
            return Err(PrepareError::InvalidExpression);
        },
        ResolveOutcome::NoMatch => {
            proof {
                assert forall|j: int|
                    0 <= j < gk.len() implies (#[trigger] gk[j]).display != tok && !req_matches(
                    expr@,
                    gk[j].sem,
                ) by {
                    assert(keys@[j]@ == gk[j]);
                }
            }
            return Err(PrepareError::NoSuchVersion);
        },
        ResolveOutcome::Exact(i) => {
            proof {
                assert forall|j: int|
                    0 <= j < gk.len() && (#[trigger] gk[j]).display == tok implies !spec_version_lt(
                    gk[i as int].sem,
                    gk[j].sem,
                ) by {
                    assert(keys@[j]@ == gk[j]);
                    assert(keys@[i as int]@ == gk[i as int]);
                }
                assert(keys@[i as int]@ == gk[i as int]);
                assert(spec_exact_choice(gk, tok, i as int));
                assert(!spec_no_candidate(gk, expr@, tok));
            }
            i
        },
        ResolveOutcome::Range(i) => {
            proof {
                assert forall|j: int| 0 <= j < gk.len() implies (#[trigger] gk[j]).display
                    != tok by {
                    assert(keys@[j]@ == gk[j]);
                }
                assert forall|j: int|
                    0 <= j < gk.len() && req_matches(
                    expr@,
                    (#[trigger] gk[j]).sem,
                ) implies !spec_version_lt(gk[i as int].sem, gk[j].sem) by {
                    assert(keys@[j]@ == gk[j]);
                    assert(keys@[i as int]@ == gk[i as int]);
                }
                assert(keys@[i as int]@ == gk[i as int]);
                assert(spec_range_choice(gk, expr@, tok, i as int));
                assert(!spec_no_candidate(gk, expr@, tok));
            }
            i
        },
    };
    proof {
        assert(spec_choice(gk, expr@, tok, chosen as int));
    }
    let os = convert_to_go_os(host_os);
    let arch = convert_to_go_arch(host_arch);
    let version = &versions[chosen];
    match version.get_matched_package(os.as_str(), arch) {
        Some(p) => {
            let req = go_install_request(version, p, no_use);
            proof {
                let k = choose|k: int|
                    spec_first_go_match(
                        versions@[chosen as int].packages@,
                        crate::golang::spec_go_os(host_os@),
                        crate::golang::spec_go_arch(host_arch@),
                        k,
                    ) && *p == versions@[chosen as int].packages@[k];
                assert(crate::golang::spec_go_request_ok(
                    req,
                    versions@[chosen as int],
                    versions@[chosen as int].packages@[k],
                    no_use,
                ));
            }
            Ok((chosen, req))
        },
        None => Err(PrepareError::NoMatchedArchOrOS),
    }
}

/// The records of a Node catalog as the resolver sees them.
pub open spec fn spec_node_keys(versions: Seq<NodeVersion>) -> Seq<VersionKeyView> {
    versions.map_values(
        |v: NodeVersion| VersionKeyView { display: v.version@, sem: v.sem_version@ },
    )
}

/// Resolves a Node version expression and selects the host's package,
/// yielding the pipeline request.
pub fn node_prepare_install(
    versions: &Vec<NodeVersion>,
    expr: &str,
    host_os: &str,
    host_arch: &str,
    no_use: bool,
) -> (r: Result<(usize, InstallRequest), PrepareError>)
    ensures
        (r == Err::<(usize, InstallRequest), PrepareError>(PrepareError::InvalidExpression))
            == !req_parse_ok(expr@),
        r != Err::<(usize, InstallRequest), PrepareError>(PrepareError::InvalidVersion),
        req_parse_ok(expr@) ==> ((r == Err::<(usize, InstallRequest), PrepareError>(
            PrepareError::NoSuchVersion,
        )) == spec_no_candidate(spec_node_keys(versions@), expr@, "v"@ + expr@)),
        (r is Ok || r == Err::<(usize, InstallRequest), PrepareError>(
            PrepareError::NoMatchedArchOrOS,
        )) == (req_parse_ok(expr@) && !spec_no_candidate(
            spec_node_keys(versions@),
            expr@,
            "v"@ + expr@,
        )),
        r matches Ok(p) ==> {
            &&& spec_choice(spec_node_keys(versions@), expr@, "v"@ + expr@, p.0 as int)
            &&& p.0 < versions@.len()
            &&& exists|k: int|
                crate::node::spec_first_node_match(
                    versions@[p.0 as int].packages@,
                    crate::node::spec_node_os(host_os@),
                    crate::node::spec_node_arch(host_arch@),
                    k,
                ) && crate::node::spec_node_request_ok(
                    p.1,
                    versions@[p.0 as int],
                    versions@[p.0 as int].packages@[k].kind,
                    crate::node::spec_file_name_os(crate::node::spec_node_os(host_os@)),
                    crate::node::spec_node_arch(host_arch@),
                    no_use,
                )
        },
        r == Err::<(usize, InstallRequest), PrepareError>(PrepareError::NoMatchedArchOrOS)
            ==> exists|i: int|
            spec_choice(spec_node_keys(versions@), expr@, "v"@ + expr@, i) && !(exists|k: int|
                0 <= k < versions@[i].packages@.len() && NodeVersion::spec_pkg_matches(
                    #[trigger] versions@[i].packages@[k],
                    crate::node::spec_node_os(host_os@),
                    crate::node::spec_node_arch(host_arch@),
                )),
{
    let mut exact = String::new();
    exact.append("v");
    exact.append(expr);
    proof {
        assert(exact@ =~= "v"@ + expr@);
    }
    let mut keys: Vec<VersionKey> = Vec::new();
    let n = versions.len();
    let mut i: usize = 0;
    while i < n
        invariant
            i <= n,
            n == versions@.len(),
            keys@.len() == i,
            forall|j: int|
                0 <= j < i ==> (#[trigger] keys@[j])@ == spec_node_keys(versions@)[j],
        decreases n - i,
    {
        keys.push(versions[i].key());
        i = i + 1;
    }
    let ghost gk = spec_node_keys(versions@);
    let ghost tok = "v"@ + expr@;
    let chosen: usize = match resolve(&keys, expr, exact.as_str()) {
        ResolveOutcome::InvalidExpression => {
            return Err(PrepareError::InvalidExpression);
        },
        ResolveOutcome::NoMatch => {
            proof {
                assert forall|j: int|
                    0 <= j < gk.len() implies (#[trigger] gk[j]).display != tok && !req_matches(
                    expr@,
                    gk[j].sem,
                ) by {
                    assert(keys@[j]@ == gk[j]);
                }
            }
            return Err(PrepareError::NoSuchVersion);
        },
        ResolveOutcome::Exact(i) => {
            proof {
                assert forall|j: int|
                    0 <= j < gk.len() && (#[trigger] gk[j]).display == tok implies !spec_version_lt(
                    gk[i as int].sem,
                    gk[j].sem,
                ) by {
                    assert(keys@[j]@ == gk[j]);
                    assert(keys@[i as int]@ == gk[i as int]);
                }
                assert(keys@[i as int]@ == gk[i as int]);
                assert(spec_exact_choice(gk, tok, i as int));
                assert(!spec_no_candidate(gk, expr@, tok));
            }
            i
        },
        ResolveOutcome::Range(i) => {
            proof {
                assert forall|j: int| 0 <= j < gk.len() implies (#[trigger] gk[j]).display
                    != tok by {
                    assert(keys@[j]@ == gk[j]);
                }
                assert forall|j: int|
                    0 <= j < gk.len() && req_matches(
                    expr@,
                    (#[trigger] gk[j]).sem,
                ) implies !spec_version_lt(gk[i as int].sem, gk[j].sem) by {
                    assert(keys@[j]@ == gk[j]);
                    assert(keys@[i as int]@ == gk[i as int]);
                }
                assert(keys@[i as int]@ == gk[i as int]);
                assert(spec_range_choice(gk, expr@, tok, i as int));
                assert(!spec_no_candidate(gk, expr@, tok));
            }
            i
        },
    };
    proof {
        assert(spec_choice(gk, expr@, tok, chosen as int));
    }
    let os = convert_to_node_os(host_os);
    let arch = convert_to_node_arch(host_arch);
    let version = &versions[chosen];
    match version.get_matched_package(os, arch) {
        Some(p) => {
            let kind = p.kind;
            let file_os = convert_to_file_name_os(os);
            let req = node_install_request(version, kind, file_os, arch, no_use);
            proof {
                let k = choose|k: int|
                    crate::node::spec_first_node_match(
                        versions@[chosen as int].packages@,
                        crate::node::spec_node_os(host_os@),
                        crate::node::spec_node_arch(host_arch@),
                        k,
                    ) && *p == versions@[chosen as int].packages@[k];
                assert(crate::node::spec_node_request_ok(
                    req,
                    versions@[chosen as int],
                    versions@[chosen as int].packages@[k].kind,
                    crate::node::spec_file_name_os(crate::node::spec_node_os(host_os@)),
                    crate::node::spec_node_arch(host_arch@),
                    no_use,
                ));
            }
            Ok((chosen, req))
        },
        None => Err(PrepareError::NoMatchedArchOrOS),
    }
}

/// The records of a Java catalog as the resolver sees them.
pub open spec fn spec_java_keys(versions: Seq<JavaVersion>) -> Seq<VersionKeyView> {
    versions.map_values(
        |v: JavaVersion| VersionKeyView { display: v.version@, sem: v.sem_version@ },
    )
}

/// The range text a vendor's version expression yields, when it yields
/// one.
pub open spec fn spec_java_range_text(expr: Seq<char>, name: Seq<char>) -> Option<Seq<char>> {
    let tok = crate::java::spec_vendor_trim(expr, name);
    if name == "corretto"@ {
        crate::java::spec_corretto_version_text(tok)
    } else {
        Some(tok)
    }
}

/// Resolves a Java version expression, with the vendor's trimming and
/// version rewriting applied first, and selects the host's package.
#[verifier::rlimit(60)]
pub fn java_prepare_install(
    versions: &Vec<JavaVersion>,
    vendor: &Vendor,
    expr: &str,
    host_os: &str,
    host_arch: &str,
    no_use: bool,
) -> (r: Result<(usize, InstallRequest), PrepareError>)
    ensures
        r matches Ok(p) ==> p.1@.link_after == !no_use,
        (vendor.name@ == "corretto"@ || vendor.name@ == "openjdk"@) ==> (r == Err::<
            (usize, InstallRequest),
            PrepareError,
        >(PrepareError::InvalidVersion)) == (spec_java_range_text(expr@, vendor.name@) is None),
        (vendor.name@ == "corretto"@ || vendor.name@ == "openjdk"@) ==> (
        spec_java_range_text(expr@, vendor.name@) matches Some(rt) ==> (r == Err::<
            (usize, InstallRequest),
            PrepareError,
        >(PrepareError::InvalidExpression)) == !req_parse_ok(rt)),
        (vendor.name@ == "corretto"@ || vendor.name@ == "openjdk"@) ==> (
        spec_java_range_text(expr@, vendor.name@) matches Some(rt) ==> ((r == Err::<
            (usize, InstallRequest),
            PrepareError,
        >(PrepareError::NoSuchVersion)) == (req_parse_ok(rt) && spec_no_candidate(
            spec_java_keys(versions@),
            rt,
            crate::java::spec_vendor_trim(expr@, vendor.name@),
        )))),
        (vendor.name@ == "corretto"@ || vendor.name@ == "openjdk"@) ==> (
        spec_java_range_text(expr@, vendor.name@) matches Some(rt) ==> ((r is Ok || r == Err::<
            (usize, InstallRequest),
            PrepareError,
        >(PrepareError::NoMatchedArchOrOS)) == (req_parse_ok(rt) && !spec_no_candidate(
            spec_java_keys(versions@),
            rt,
            crate::java::spec_vendor_trim(expr@, vendor.name@),
        )))),
        (vendor.name@ == "corretto"@ || vendor.name@ == "openjdk"@) ==> (
        spec_java_range_text(expr@, vendor.name@) matches Some(rt) ==> (r matches Ok(p) ==> (
        spec_choice(
            spec_java_keys(versions@),
            rt,
            crate::java::spec_vendor_trim(expr@, vendor.name@),
            p.0 as int,
        ) && p.0 < versions@.len() && exists|k: int|
            crate::java::spec_first_java_match(
                versions@[p.0 as int].packages@,
                crate::java::spec_java_os(host_os@),
                crate::java::spec_java_arch(host_arch@),
                k,
            ) && crate::java::spec_java_request_ok(
                p.1,
                versions@[p.0 as int],
                versions@[p.0 as int].packages@[k],
                no_use,
            )))),
        (vendor.name@ == "corretto"@ || vendor.name@ == "openjdk"@) ==> (
        spec_java_range_text(expr@, vendor.name@) matches Some(rt) ==> (r == Err::<
            (usize, InstallRequest),
            PrepareError,
        >(PrepareError::NoMatchedArchOrOS) ==> exists|i: int|
            spec_choice(
                spec_java_keys(versions@),
                rt,
                crate::java::spec_vendor_trim(expr@, vendor.name@),
                i,
            ) && !(exists|k: int|
                0 <= k < versions@[i].packages@.len() && JavaVersion::spec_pkg_matches(
                    #[trigger] versions@[i].packages@[k],
                    crate::java::spec_java_os(host_os@),
                    crate::java::spec_java_arch(host_arch@),
                )))),
{
    proof {
        reveal_strlit("corretto");
        reveal_strlit("openjdk");
        assert("corretto"@.len() == 8 && "openjdk"@.len() == 7);
    }
    let trimmed = vendor.trim(expr);
    proof {
        assert(trimmed@ == crate::java::spec_vendor_trim(expr@, vendor.name@));
    }
    let parsed = match vendor.parse_version(expr) {
        Some(t) => t,
        None => {
            return Err(PrepareError::InvalidVersion);
        },
    };
    let mut keys: Vec<VersionKey> = Vec::new();
    let n = versions.len();
    let mut i: usize = 0;
    while i < n
        invariant
            i <= n,
            n == versions@.len(),
            keys@.len() == i,
            forall|j: int|
                0 <= j < i ==> (#[trigger] keys@[j])@ == spec_java_keys(versions@)[j],
        decreases n - i,
    {
        keys.push(versions[i].key());
        i = i + 1;
    }
    let ghost gk = spec_java_keys(versions@);
    let ghost tok = crate::java::spec_vendor_trim(expr@, vendor.name@);
    let chosen: usize = match resolve(&keys, parsed.as_str(), trimmed.as_str()) {
        ResolveOutcome::InvalidExpression => {
            return Err(PrepareError::InvalidExpression);
        },
        ResolveOutcome::NoMatch => {
            proof {
                assert forall|j: int|
                    0 <= j < gk.len() implies (#[trigger] gk[j]).display != tok && !req_matches(
                    parsed@,
                    gk[j].sem,
                ) by {
                    assert(keys@[j]@ == gk[j]);
                }
            }
            return Err(PrepareError::NoSuchVersion);
        },
        ResolveOutcome::Exact(i) => {
            proof {
                assert forall|j: int|
                    0 <= j < gk.len() && (#[trigger] gk[j]).display == tok implies !spec_version_lt(
                    gk[i as int].sem,
                    gk[j].sem,
                ) by {
                    assert(keys@[j]@ == gk[j]);
                    assert(keys@[i as int]@ == gk[i as int]);
                }
                assert(keys@[i as int]@ == gk[i as int]);
                assert(spec_exact_choice(gk, tok, i as int));
                assert(!spec_no_candidate(gk, parsed@, tok));
            }
            i
        },
        ResolveOutcome::Range(i) => {
            proof {
                assert forall|j: int| 0 <= j < gk.len() implies (#[trigger] gk[j]).display
                    != tok by {
                    assert(keys@[j]@ == gk[j]);
                }
                assert forall|j: int|
                    0 <= j < gk.len() && req_matches(
                    parsed@,
                    (#[trigger] gk[j]).sem,
                ) implies !spec_version_lt(gk[i as int].sem, gk[j].sem) by {
                    assert(keys@[j]@ == gk[j]);
                    assert(keys@[i as int]@ == gk[i as int]);
                }
                assert(keys@[i as int]@ == gk[i as int]);
                assert(spec_range_choice(gk, parsed@, tok, i as int));
                assert(!spec_no_candidate(gk, parsed@, tok));
            }
            i
        },
    };
    proof {
        assert(spec_choice(gk, parsed@, tok, chosen as int));
        assert(!spec_no_candidate(gk, parsed@, tok));
        if vendor.name@ == "corretto"@ || vendor.name@ == "openjdk"@ {
            let rng = spec_java_range_text(expr@, vendor.name@);
            if rng is Some {
                assert(parsed@ == rng->0);
                assert(spec_choice(gk, rng->0, tok, chosen as int));
                assert(!spec_no_candidate(gk, rng->0, tok));
            }
        }
    }
    let os = convert_to_java_os(host_os);
    let arch = convert_to_java_arch(host_arch);
    let version = &versions[chosen];
    match version.get_matched_package(os, arch) {
        Some(p) => {
            let req = java_install_request(version, p, no_use);
            proof {
                let k = choose|k: int|
                    crate::java::spec_first_java_match(
                        versions@[chosen as int].packages@,
                        crate::java::spec_java_os(host_os@),
                        crate::java::spec_java_arch(host_arch@),
                        k,
                    ) && *p == versions@[chosen as int].packages@[k];
                assert(crate::java::spec_java_request_ok(
                    req,
                    versions@[chosen as int],
                    versions@[chosen as int].packages@[k],
                    no_use,
                ));
            }
            Ok((chosen, req))
        },
        None => Err(PrepareError::NoMatchedArchOrOS),
    }
}

// ---------------------------------------------------------------------------
// Listing entries, oldest first.
// ---------------------------------------------------------------------------

/// Whether a release passes the listing filter: no filter or an empty one
/// passes everything; otherwise some package file name must hold the text,
/// case-insensitively.
#[verifier::opaque]
pub open spec fn spec_go_listed(filter: Option<String>, v: GolangVersion) -> bool {
    match filter {
        Some(f) => f@.len() == 0 || (exists|i: int|
            0 <= i < v.packages@.len() && spec_contains(
                spec_lower((#[trigger] v.packages@[i]).file_name@),
                spec_lower(f@),
            )),
        None => true,
    }
}

/// The record is one matched release's canonical key.
pub open spec fn spec_go_key_of(
    versions: Seq<GolangVersion>,
    filter: Option<String>,
    k: VersionKeyView,
) -> bool {
    exists|j: int|
        0 <= j < versions.len() && spec_go_listed(filter, #[trigger] versions[j]) && k.display
            == crate::version::spec_format_semver(versions[j].sem_version@) && k.sem
            == versions[j].sem_version@
}

/// Some record carries this ordering tuple.
pub open spec fn spec_has_sem(keys: Seq<VersionKey>, sem: SemVerView) -> bool {
    exists|a: int| 0 <= a < keys.len() && (#[trigger] keys[a])@.sem == sem
}

/// The matched releases as canonical keys, in catalog order.
fn go_matched_keys(versions: &Vec<GolangVersion>, filter: &Option<String>) -> (keys: Vec<
    VersionKey,
>)
    ensures
        forall|a: int|
            0 <= a < keys@.len() ==> spec_go_key_of(versions@, *filter, (#[trigger] keys@[a])@),
        forall|j: int|
            0 <= j < versions@.len() && spec_go_listed(*filter, #[trigger] versions@[j])
                ==> spec_has_sem(keys@, versions@[j].sem_version@),
{
    let mut keys: Vec<VersionKey> = Vec::new();
    let n = versions.len();
    let mut i: usize = 0;
    while i < n
        invariant
            i <= n,
            n == versions@.len(),
            forall|a: int|
                0 <= a < keys@.len() ==> spec_go_key_of(versions@, *filter, (#[trigger] keys@[a])@),
            forall|j: int|
                0 <= j < i && spec_go_listed(*filter, #[trigger] versions@[j]) ==> spec_has_sem(
                    keys@,
                    versions@[j].sem_version@,
                ),
        decreases n - i,
    {
        let matched = match filter {
            Some(f) => {
                if f.as_str().is_empty() {
                    true
                } else {
                    versions[i].is_match(f.as_str())
                }
            },
            None => true,
        };
        proof {
            reveal(spec_go_listed);
            assert(matched == spec_go_listed(*filter, versions@[i as int]));
        }
        let ghost old_keys = keys@;
        if matched {
            keys.push(
                VersionKey {
                    display: crate::version::format_semver(&versions[i].sem_version),
                    sem: versions[i].sem_version.duplicate(),
                },
            );
            proof {
                assert(spec_go_key_of(
                    versions@,
                    *filter,
                    keys@[keys@.len() - 1]@,
                ));
            }
        }
        proof {
            assert forall|a: int| 0 <= a < keys@.len() implies spec_go_key_of(
                versions@,
                *filter,
                (#[trigger] keys@[a])@,
            ) by {
                if a < old_keys.len() {
                    assert(keys@[a] == old_keys[a]);
                }
            }
            assert forall|j: int|
                0 <= j < i + 1 && spec_go_listed(*filter, #[trigger] versions@[j])
                    implies spec_has_sem(keys@, versions@[j].sem_version@) by {
                if j < i {
                    assert(spec_has_sem(old_keys, versions@[j].sem_version@));
                    let a = choose|a: int|
                        0 <= a < old_keys.len() && (#[trigger] old_keys[a])@.sem
                            == versions@[j].sem_version@;
                    assert(keys@[a] == old_keys[a]);
                    assert(spec_has_sem(keys@, versions@[j].sem_version@));
                } else {
                    assert(keys@[keys@.len() - 1]@.sem == versions@[i as int].sem_version@);
                }
            }
        }
        i = i + 1;
    }
    keys
}

/// Carries the listing facts through the dedup and the sort.
proof fn lemma_go_listing_transfer(
    versions: Seq<GolangVersion>,
    filter: Option<String>,
    keys: Seq<VersionKey>,
    deduped: Seq<VersionKey>,
    sorted: Seq<VersionKey>,
)
    requires
        forall|a: int|
            0 <= a < keys.len() ==> spec_go_key_of(versions, filter, (#[trigger] keys[a])@),
        forall|j: int|
            0 <= j < versions.len() && spec_go_listed(filter, #[trigger] versions[j])
                ==> spec_has_sem(keys, versions[j].sem_version@),
        forall|a: int, b: int|
            0 <= a < b < deduped.len() ==> (#[trigger] deduped[a])@.sem != (
            #[trigger] deduped[b])@.sem,
        forall|a: int| 0 <= a < deduped.len() ==> spec_drawn_from(deduped, keys, a),
        forall|j: int| 0 <= j < keys.len() ==> spec_sem_kept(keys, deduped, j),
        sorted.to_multiset() == deduped.to_multiset(),
    ensures
        forall|i: int|
            0 <= i < sorted.len() ==> spec_go_key_of(versions, filter, (#[trigger] sorted[i])@),
        forall|j: int|
            0 <= j < versions.len() && spec_go_listed(filter, #[trigger] versions[j])
                ==> spec_has_sem(sorted, versions[j].sem_version@),
        forall|i: int, k: int|
            0 <= i < k < sorted.len() ==> (#[trigger] sorted[i])@.sem != (
            #[trigger] sorted[k])@.sem,
{
    lemma_permutation_membership(sorted, deduped);
    lemma_permutation_membership(deduped, sorted);
    assert(deduped.no_duplicates()) by {
        assert forall|a: int, b: int|
            0 <= a < deduped.len() && 0 <= b < deduped.len() && a != b implies deduped[a]
            != deduped[b] by {
            if a < b {
                assert(deduped[a]@.sem != deduped[b]@.sem);
            } else {
                assert(deduped[b]@.sem != deduped[a]@.sem);
            }
        }
    }
    deduped.lemma_multiset_has_no_duplicates();
    sorted.lemma_multiset_has_no_duplicates_conv();
    assert forall|i: int| 0 <= i < sorted.len() implies spec_go_key_of(
        versions,
        filter,
        (#[trigger] sorted[i])@,
    ) by {
        assert(deduped.contains(sorted[i]));
        let a = choose|a: int| 0 <= a < deduped.len() && deduped[a] == sorted[i];
        assert(spec_drawn_from(deduped, keys, a));
        let b = choose|b: int| 0 <= b < keys.len() && (#[trigger] keys[b])@ == deduped[a]@;
        assert(spec_go_key_of(versions, filter, keys[b]@));
    }
    assert forall|j: int|
        0 <= j < versions.len() && spec_go_listed(filter, #[trigger] versions[j])
            implies spec_has_sem(sorted, versions[j].sem_version@) by {
        assert(spec_has_sem(keys, versions[j].sem_version@));
        let a = choose|a: int|
            0 <= a < keys.len() && (#[trigger] keys[a])@.sem == versions[j].sem_version@;
        assert(spec_sem_kept(keys, deduped, a));
        let c = choose|c: int|
            0 <= c < deduped.len() && (#[trigger] deduped[c])@.sem == keys[a]@.sem;
        assert(sorted.contains(deduped[c]));
        let i = choose|i: int| 0 <= i < sorted.len() && sorted[i] == deduped[c];
        assert(sorted[i]@.sem == versions[j].sem_version@);
        assert(spec_has_sem(sorted, versions[j].sem_version@));
    }
    assert forall|i: int, k: int|
        0 <= i < k < sorted.len() implies (#[trigger] sorted[i])@.sem != (
    #[trigger] sorted[k])@.sem by {
        assert(sorted[i] != sorted[k]);
        assert(deduped.contains(sorted[i]));
        assert(deduped.contains(sorted[k]));
        let a = choose|a: int| 0 <= a < deduped.len() && deduped[a] == sorted[i];
        let b = choose|b: int| 0 <= b < deduped.len() && deduped[b] == sorted[k];
        assert(a != b);
    }
}

/// The Go listing: one entry per distinct ordering tuple among the
/// filter-matched releases, displayed canonically, oldest first — every
/// entry is a matched release's canonical key, and every matched release's
/// tuple is represented.
pub fn go_list_entries(versions: &Vec<GolangVersion>, filter: &Option<String>) -> (r: Vec<
    VersionKey,
>)
    ensures
        forall|i: int, j: int|
            0 <= i < j < r@.len() ==> !spec_version_lt(
                (#[trigger] r@[j])@.sem,
                (#[trigger] r@[i])@.sem,
            ),
        forall|i: int|
            0 <= i < r@.len() ==> spec_go_key_of(versions@, *filter, (#[trigger] r@[i])@),
        forall|j: int|
            0 <= j < versions@.len() && spec_go_listed(*filter, #[trigger] versions@[j])
                ==> spec_has_sem(r@, versions@[j].sem_version@),
        forall|i: int, k: int|
            0 <= i < k < r@.len() ==> (#[trigger] r@[i])@.sem != (#[trigger] r@[k])@.sem,
{
    let keys = go_matched_keys(versions, filter);
    let ghost kv = keys@;
    let deduped = dedup_keys(keys);
    let sorted = sort_by_version(deduped);
    proof {
        lemma_go_listing_transfer(versions@, *filter, kv, deduped@, sorted@);
    }
    sorted
}

/// Whether a Node release passes the listing filter: no filter or an
/// empty one passes everything; otherwise the raw version token must hold
/// the text, case-insensitively.
#[verifier::opaque]
pub open spec fn spec_node_listed(filter: Option<String>, v: NodeVersion) -> bool {
    match filter {
        Some(f) => f@.len() == 0 || spec_contains(spec_lower(v.version@), spec_lower(f@)),
        None => true,
    }
}

/// The record is one matched Node release's listing key.
pub open spec fn spec_node_key_of(
    versions: Seq<NodeVersion>,
    filter: Option<String>,
    k: VersionKeyView,
) -> bool {
    exists|j: int|
        0 <= j < versions.len() && spec_node_listed(filter, #[trigger] versions[j]) && k.display
            == crate::node::spec_format_version(versions[j]) && k.sem == versions[j].sem_version@
}

/// Some record carries this display text and this ordering tuple.
pub open spec fn spec_has_key(keys: Seq<VersionKey>, display: Seq<char>, sem: SemVerView) -> bool {
    exists|a: int|
        0 <= a < keys.len() && (#[trigger] keys[a])@.display == display && keys[a]@.sem == sem
}

/// The Node listing: the filter-matched releases, displayed with their
/// LTS mark, oldest first — every entry is a matched release's key, and
/// every matched release is represented.
pub fn node_list_entries(versions: &Vec<NodeVersion>, filter: &Option<String>) -> (r: Vec<
    VersionKey,
>)
    ensures
        forall|i: int, j: int|
            0 <= i < j < r@.len() ==> !spec_version_lt(
                (#[trigger] r@[j])@.sem,
                (#[trigger] r@[i])@.sem,
            ),
        forall|i: int|
            0 <= i < r@.len() ==> spec_node_key_of(versions@, *filter, (#[trigger] r@[i])@),
        forall|j: int|
            0 <= j < versions@.len() && spec_node_listed(*filter, #[trigger] versions@[j])
                ==> spec_has_key(
                r@,
                crate::node::spec_format_version(versions@[j]),
                versions@[j].sem_version@,
            ),
{
    let mut keys: Vec<VersionKey> = Vec::new();
    let n = versions.len();
    let mut i: usize = 0;
    while i < n
        invariant
            i <= n,
            n == versions@.len(),
            forall|a: int|
                0 <= a < keys@.len() ==> spec_node_key_of(
                    versions@,
                    *filter,
                    (#[trigger] keys@[a])@,
                ),
            forall|j: int|
                0 <= j < i && spec_node_listed(*filter, #[trigger] versions@[j]) ==> spec_has_key(
                    keys@,
                    crate::node::spec_format_version(versions@[j]),
                    versions@[j].sem_version@,
                ),
        decreases n - i,
    {
        let matched = match filter {
            Some(f) => {
                if f.as_str().is_empty() {
                    true
                } else {
                    versions[i].is_match(f.as_str())
                }
            },
            None => true,
        };
        proof {
            reveal(spec_node_listed);
            assert(matched == spec_node_listed(*filter, versions@[i as int]));
        }
        let ghost old_keys = keys@;
        if matched {
            keys.push(
                VersionKey {
                    display: crate::node::format_version(&versions[i]),
                    sem: versions[i].sem_version.duplicate(),
                },
            );
            proof {
                assert(keys@[keys@.len() - 1]@.display == crate::node::spec_format_version(
                    versions@[i as int],
                ));
                assert(spec_node_key_of(versions@, *filter, keys@[keys@.len() - 1]@));
            }
        }
        proof {
            assert forall|a: int| 0 <= a < keys@.len() implies spec_node_key_of(
                versions@,
                *filter,
                (#[trigger] keys@[a])@,
            ) by {
                if a < old_keys.len() {
                    assert(keys@[a] == old_keys[a]);
                }
            }
            assert forall|j: int|
                0 <= j < i + 1 && spec_node_listed(*filter, #[trigger] versions@[j])
                    implies spec_has_key(
                keys@,
                crate::node::spec_format_version(versions@[j]),
                versions@[j].sem_version@,
            ) by {
                if j < i {
                    assert(spec_has_key(
                        old_keys,
                        crate::node::spec_format_version(versions@[j]),
                        versions@[j].sem_version@,
                    ));
                    let a = choose|a: int|
                        0 <= a < old_keys.len() && (#[trigger] old_keys[a])@.display
                            == crate::node::spec_format_version(versions@[j]) && old_keys[a]@.sem
                            == versions@[j].sem_version@;
                    assert(keys@[a] == old_keys[a]);
                }
            }
        }
        i = i + 1;
    }
    let ghost kv = keys@;
    let sorted = sort_by_version(keys);
    proof {
        lemma_permutation_membership(sorted@, kv);
        lemma_permutation_membership(kv, sorted@);
        assert forall|i: int| 0 <= i < sorted@.len() implies spec_node_key_of(
            versions@,
            *filter,
            (#[trigger] sorted@[i])@,
        ) by {
            assert(kv.contains(sorted@[i]));
            let a = choose|a: int| 0 <= a < kv.len() && kv[a] == sorted@[i];
        }
        assert forall|j: int|
            0 <= j < versions@.len() && spec_node_listed(*filter, #[trigger] versions@[j])
                implies spec_has_key(
            sorted@,
            crate::node::spec_format_version(versions@[j]),
            versions@[j].sem_version@,
        ) by {
            let a = choose|a: int|
                0 <= a < kv.len() && (#[trigger] kv[a])@.display
                    == crate::node::spec_format_version(versions@[j]) && kv[a]@.sem
                    == versions@[j].sem_version@;
            assert(sorted@.contains(kv[a]));
            let i = choose|i: int| 0 <= i < sorted@.len() && sorted@[i] == kv[a];
            assert(spec_has_key(
                sorted@,
                crate::node::spec_format_version(versions@[j]),
                versions@[j].sem_version@,
            ));
        }
    }
    sorted
}

/// Whether a Java release passes the listing filter.
#[verifier::opaque]
pub open spec fn spec_java_listed(filter: Option<String>, v: JavaVersion) -> bool {
    match filter {
        Some(f) => f@.len() == 0 || spec_contains(spec_lower(v.version@), spec_lower(f@)),
        None => true,
    }
}

/// The record is one matched Java release's listing key.
pub open spec fn spec_java_key_of(
    versions: Seq<JavaVersion>,
    filter: Option<String>,
    k: VersionKeyView,
) -> bool {
    exists|j: int|
        0 <= j < versions.len() && spec_java_listed(filter, #[trigger] versions[j]) && k.display
            == versions[j].version@ && k.sem == versions[j].sem_version@
}

/// The Java listing: the filter-matched releases under their raw version
/// text, oldest first — every entry is a matched release's key, and every
/// matched release is represented.
pub fn java_list_entries(versions: &Vec<JavaVersion>, filter: &Option<String>) -> (r: Vec<
    VersionKey,
>)
    ensures
        forall|i: int, j: int|
            0 <= i < j < r@.len() ==> !spec_version_lt(
                (#[trigger] r@[j])@.sem,
                (#[trigger] r@[i])@.sem,
            ),
        forall|i: int|
            0 <= i < r@.len() ==> spec_java_key_of(versions@, *filter, (#[trigger] r@[i])@),
        forall|j: int|
            0 <= j < versions@.len() && spec_java_listed(*filter, #[trigger] versions@[j])
                ==> spec_has_key(r@, versions@[j].version@, versions@[j].sem_version@),
{
    let mut keys: Vec<VersionKey> = Vec::new();
    let n = versions.len();
    let mut i: usize = 0;
    while i < n
        invariant
            i <= n,
            n == versions@.len(),
            forall|a: int|
                0 <= a < keys@.len() ==> spec_java_key_of(
                    versions@,
                    *filter,
                    (#[trigger] keys@[a])@,
                ),
            forall|j: int|
                0 <= j < i && spec_java_listed(*filter, #[trigger] versions@[j]) ==> spec_has_key(
                    keys@,
                    versions@[j].version@,
                    versions@[j].sem_version@,
                ),
        decreases n - i,
    {
        let matched = match filter {
            Some(f) => {
                if f.as_str().is_empty() {
                    true
                } else {
                    versions[i].is_match(f.as_str())
                }
            },
            None => true,
        };
        proof {
            reveal(spec_java_listed);
            assert(matched == spec_java_listed(*filter, versions@[i as int]));
        }
        let ghost old_keys = keys@;
        if matched {
            keys.push(versions[i].key());
            proof {
                assert(spec_java_key_of(versions@, *filter, keys@[keys@.len() - 1]@));
            }
        }
        proof {
            assert forall|a: int| 0 <= a < keys@.len() implies spec_java_key_of(
                versions@,
                *filter,
                (#[trigger] keys@[a])@,
            ) by {
                if a < old_keys.len() {
                    assert(keys@[a] == old_keys[a]);
                }
            }
            assert forall|j: int|
                0 <= j < i + 1 && spec_java_listed(*filter, #[trigger] versions@[j])
                    implies spec_has_key(
                keys@,
                versions@[j].version@,
                versions@[j].sem_version@,
            ) by {
                if j < i {
                    assert(spec_has_key(old_keys, versions@[j].version@, versions@[j].sem_version@));
                    let a = choose|a: int|
                        0 <= a < old_keys.len() && (#[trigger] old_keys[a])@.display
                            == versions@[j].version@ && old_keys[a]@.sem
                            == versions@[j].sem_version@;
                    assert(keys@[a] == old_keys[a]);
                }
            }
        }
        i = i + 1;
    }
    let ghost kv = keys@;
    let sorted = sort_by_version(keys);
    proof {
        lemma_permutation_membership(sorted@, kv);
        lemma_permutation_membership(kv, sorted@);
        assert forall|i: int| 0 <= i < sorted@.len() implies spec_java_key_of(
            versions@,
            *filter,
            (#[trigger] sorted@[i])@,
        ) by {
            assert(kv.contains(sorted@[i]));
            let a = choose|a: int| 0 <= a < kv.len() && kv[a] == sorted@[i];
        }
        assert forall|j: int|
            0 <= j < versions@.len() && spec_java_listed(*filter, #[trigger] versions@[j])
                implies spec_has_key(sorted@, versions@[j].version@, versions@[j].sem_version@) by {
            let a = choose|a: int|
                0 <= a < kv.len() && (#[trigger] kv[a])@.display == versions@[j].version@
                    && kv[a]@.sem == versions@[j].sem_version@;
            assert(sorted@.contains(kv[a]));
            let i = choose|i: int| 0 <= i < sorted@.len() && sorted@[i] == kv[a];
            assert(spec_has_key(sorted@, versions@[j].version@, versions@[j].sem_version@));
        }
    }
    sorted
}

} // verus!} // verus!
