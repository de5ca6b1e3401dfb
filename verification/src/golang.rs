//! The Go catalog: one HTML page whose stable, unstable and archive
//! sections each hold per-version download tables. Rows become packages,
//! the sections are merged with unstable and archive entries superseding
//! stable ones, and an install request is built from the selected package.

use vstd::prelude::*;
use crate::assoc::{spec_assoc_get, lemma_assoc_get_push, lemma_assoc_get_some_of_index, assoc_contains};
use crate::htmlsel::{
    parse_document, parse_selector, select_in_document, select_in_element, element_attr,
    element_inner_html,
};
use crate::install::{ChecksumSource, ExtractDirSource, InstallRequest};
use crate::checksum::ChecksumMethod;
use crate::parse::{parse_go_semver, spec_parse_go_semver};
use crate::resolver::VersionKey;
use crate::strutil::{
    contains_ci, spec_contains, spec_lower, lower, starts_with, spec_starts_with, str_eq,
};
use crate::version::{SemVer, spec_format_semver, format_semver};

verus! {

/// One downloadable Go artifact, as its catalog row shows it.
#[derive(Debug, Clone)]
pub struct GolangPackage {
    pub version_type: String,
    pub file_name: String,
    pub os: String,
    pub kind: String,
    pub arch: String,
    pub checksum: String,
    pub size: String,
    pub url: String,
}

/// One Go release: the raw version token, its ordering tuple, and its
/// packages.
#[derive(Debug, Clone)]
pub struct GolangVersion {
    pub version: String,
    pub sem_version: SemVer,
    pub packages: Vec<GolangPackage>,
}

impl GolangVersion {
    /// Builds a release from a version token and its packages; a token the
    /// grammar rejects drops the release.
    pub fn from_packages(version: String, packages: Vec<GolangPackage>) -> (r: Option<
        GolangVersion,
    >)
        ensures
            (r is Some) == (spec_parse_go_semver(version@) is Some),
            r matches Some(g) ==> {
                &&& g.version == version
                &&& Some(g.sem_version@) == spec_parse_go_semver(version@)
                &&& g.packages == packages
            },
    {
        match parse_go_semver(version.as_str()) {
            Some(sem) => Some(GolangVersion { version, sem_version: sem, packages }),
            None => None,
        }
    }

    /// Whether any package's file name holds the filter text,
    /// case-insensitively.
    pub fn is_match(&self, filter: &str) -> (r: bool)
        ensures
            r == exists|i: int|
                0 <= i < self.packages@.len() && spec_contains(
                    spec_lower((#[trigger] self.packages@[i]).file_name@),
                    spec_lower(filter@),
                ),
    {
        let n = self.packages.len();
        let mut i: usize = 0;
        while i < n
            invariant
                i <= n,
                n == self.packages@.len(),
                forall|j: int|
                    0 <= j < i ==> !spec_contains(
                        spec_lower((#[trigger] self.packages@[j]).file_name@),
                        spec_lower(filter@),
                    ),
            decreases n - i,
        {
            if contains_ci(self.packages[i].file_name.as_str(), filter) {
                return true;
            }
            i = i + 1;
        }
        false
    }

    /// Whether a package row is the installable archive for this target.
    pub open spec fn spec_pkg_matches(p: GolangPackage, os: Seq<char>, arch: Seq<char>) -> bool {
        &&& spec_lower(p.arch@) == arch
        &&& spec_lower(p.os@) == os
        &&& spec_lower(p.kind@) == "archive"@
    }

    pub fn has_matched_package(&self, os: &str, arch: &str) -> (r: bool)
        ensures
            r == exists|i: int|
                0 <= i < self.packages@.len() && GolangVersion::spec_pkg_matches(
                    #[trigger] self.packages@[i],
                    os@,
                    arch@,
                ),
    {
        self.get_matched_package(os, arch).is_some()
    }

    /// The first package row matching the target, if any.
    pub fn get_matched_package(&self, os: &str, arch: &str) -> (r: Option<&GolangPackage>)
        ensures
            (r is Some) == exists|i: int|
                0 <= i < self.packages@.len() && GolangVersion::spec_pkg_matches(
                    #[trigger] self.packages@[i],
                    os@,
                    arch@,
                ),
            r matches Some(p) ==> exists|i: int|
                spec_first_go_match(self.packages@, os@, arch@, i) && *p == self.packages@[i],
    {
        let n = self.packages.len();
        let mut i: usize = 0;
        while i < n
            invariant
                i <= n,
                n == self.packages@.len(),
                forall|j: int|
                    0 <= j < i ==> !GolangVersion::spec_pkg_matches(
                        #[trigger] self.packages@[j],
                        os@,
                        arch@,
                    ),
            decreases n - i,
        {
            let p = &self.packages[i];
            let la = lower(p.arch.as_str());
            let lo = lower(p.os.as_str());
            let lk = lower(p.kind.as_str());
            if str_eq(la.as_str(), arch) && str_eq(lo.as_str(), os) && str_eq(
                lk.as_str(),
                "archive",
            ) {
                proof {
                    assert(spec_first_go_match(self.packages@, os@, arch@, i as int));
                }
                return Some(&self.packages[i]);
            }
            i = i + 1;
        }
        None
    }

    /// This release as the resolver sees it.
    pub fn key(&self) -> (r: VersionKey)
        ensures
            r.display@ == self.version@,
            r.sem@ == self.sem_version@,
    {
        VersionKey { display: self.version.clone(), sem: self.sem_version.duplicate() }
    }
}

/// Package row `i` is the first installable archive for the target.
pub open spec fn spec_first_go_match(
    pkgs: Seq<GolangPackage>,
    os: Seq<char>,
    arch: Seq<char>,
    i: int,
) -> bool {
    &&& 0 <= i < pkgs.len()
    &&& GolangVersion::spec_pkg_matches(pkgs[i], os, arch)
    &&& forall|j: int| 0 <= j < i ==> !GolangVersion::spec_pkg_matches(#[trigger] pkgs[j], os, arch)
}

/// The host's OS name as the Go catalog writes it.
pub open spec fn spec_go_os(os: Seq<char>) -> Seq<char> {
    spec_lower(os)
}

pub fn convert_to_go_os(os: &str) -> (r: String)
    ensures
        r@ == spec_go_os(os@),
{
    lower(os)
}

/// The host's architecture as the Go catalog writes it.
pub open spec fn spec_go_arch(arch: Seq<char>) -> Seq<char> {
    if arch == "x86_64"@ {
        "x86-64"@
    } else if arch == "arm"@ {
        "armv6"@
    } else if arch == "aarch64"@ {
        "arm64"@
    } else if arch == "loongarch64"@ {
        "loong64"@
    } else if arch == "powerpc"@ {
        "ppc"@
    } else if arch == "powerpc64"@ {
        "ppc64"@
    } else {
        arch
    }
}

pub fn convert_to_go_arch<'a>(arch: &'a str) -> (r: &'a str)
    ensures
        r@ == spec_go_arch(arch@),
{
    proof {
        reveal_strlit("x86_64");
        reveal_strlit("arm");
        reveal_strlit("aarch64");
        reveal_strlit("loongarch64");
        reveal_strlit("powerpc");
        reveal_strlit("powerpc64");
        assert("x86_64"@.len() == 6 && "arm"@.len() == 3 && "aarch64"@.len() == 7
            && "loongarch64"@.len() == 11 && "powerpc"@.len() == 7 && "powerpc64"@.len() == 9);
        assert("aarch64"@[0] == 'a' && "powerpc"@[0] == 'p');
    }
    if str_eq(arch, "x86_64") {
        "x86-64"
    } else if str_eq(arch, "arm") {
        "armv6"
    } else if str_eq(arch, "aarch64") {
        "arm64"
    } else if str_eq(arch, "loongarch64") {
        "loong64"
    } else if str_eq(arch, "powerpc") {
        "ppc"
    } else if str_eq(arch, "powerpc64") {
        "ppc64"
    } else {
        arch
    }
}

// ---------------------------------------------------------------------------
// Section merge.
// ---------------------------------------------------------------------------

/// One catalog section: version token to package rows, newest write first.
pub type GoSection = Vec<(String, Vec<GolangPackage>)>;

/// Merges the three sections: an archive entry supersedes any other for its
/// version token, an unstable entry supersedes a stable one, and a version
/// token found nowhere yields nothing.
#[verifier::rlimit(50)]
pub fn merge_go_sections(stable: GoSection, unstable: GoSection, archive: GoSection) -> (r:
    GoSection)
    ensures
        forall|k: Seq<char>|
            #[trigger] spec_assoc_get(r@, k) == {
                if spec_assoc_get(archive@, k) is Some {
                    spec_assoc_get(archive@, k)
                } else if spec_assoc_get(unstable@, k) is Some {
                    spec_assoc_get(unstable@, k)
                } else {
                    spec_assoc_get(stable@, k)
                }
            },
{
    let mut out: GoSection = Vec::new();
    let ghost st0 = stable@;
    let ghost un0 = unstable@;
    let ghost ar0 = archive@;
    let mut stable = stable;
    let mut unstable = unstable;
    let mut archive = archive;
    let mut i: usize = 0;
    let n_st = stable.len();
    let n_un = unstable.len();
    let n_ar = archive.len();
    proof {
        assert(st0.len() == n_st && un0.len() == n_un && ar0.len() == n_ar);
        assert(stable@ =~= st0.skip(0));
        assert(forall|k: Seq<char>|
            #[trigger] spec_assoc_get(out@, k) is None && spec_assoc_get(st0.take(0), k) is None);
    }
    while stable.len() > 0
        invariant
            st0.len() <= usize::MAX,
            i + stable@.len() == st0.len(),
            stable@ == st0.skip(i as int),
            unstable@ == un0,
            archive@ == ar0,
            forall|k: Seq<char>|
                #[trigger] spec_assoc_get(out@, k) == {
                    if spec_assoc_get(un0, k) is Some || spec_assoc_get(ar0, k) is Some {
                        None::<Vec<GolangPackage>>
                    } else {
                        spec_assoc_get(st0.take(i as int), k)
                    }
                },
        decreases stable@.len(),
    {
        let e = stable.remove(0);
        proof {
            assert(e == st0[i as int]);
            assert(stable@ =~= st0.skip(i + 1));
        }
        let ghost old_out = out@;
        let keep = !assoc_contains(&unstable, e.0.as_str()) && !assoc_contains(
            &archive,
            e.0.as_str(),
        );
        if keep {
            out.push(e);
        }
        proof {
            assert forall|k: Seq<char>| #[trigger] spec_assoc_get(out@, k) == {
                if spec_assoc_get(un0, k) is Some || spec_assoc_get(ar0, k) is Some {
                    None::<Vec<GolangPackage>>
                } else {
                    spec_assoc_get(st0.take(i + 1), k)
                }
            } by {
                assert(st0.take(i + 1) =~= st0.take(i as int).push(st0[i as int]));
                lemma_assoc_get_push(st0.take(i as int), st0[i as int], k);
                if out@.len() > old_out.len() {
                    assert(out@ =~= old_out.push(st0[i as int]));
                    lemma_assoc_get_push(old_out, st0[i as int], k);
                }
            }
        }
        i = i + 1;
    }
    proof {
        assert(st0.take(i as int) =~= st0);
    }
    let mut j: usize = 0;
    proof {
        assert(unstable@ =~= un0.skip(0));
    }
    while unstable.len() > 0
        invariant
            un0.len() <= usize::MAX,
            j + unstable@.len() == un0.len(),
            unstable@ == un0.skip(j as int),
            archive@ == ar0,
            forall|k: Seq<char>|
                #[trigger] spec_assoc_get(out@, k) == {
                    if spec_assoc_get(ar0, k) is Some {
                        None::<Vec<GolangPackage>>
                    } else if spec_assoc_get(un0.take(j as int), k) is Some {
                        spec_assoc_get(un0.take(j as int), k)
                    } else if spec_assoc_get(un0, k) is Some {
                        None::<Vec<GolangPackage>>
                    } else {
                        spec_assoc_get(st0, k)
                    }
                },
        decreases unstable@.len(),
    {
        let e = unstable.remove(0);
        proof {
            assert(e == un0[j as int]);
            assert(unstable@ =~= un0.skip(j + 1));
        }
        let ghost old_out = out@;
        let keep = !assoc_contains(&archive, e.0.as_str());
        if keep {
            out.push(e);
        }
        proof {
            assert forall|k: Seq<char>| #[trigger] spec_assoc_get(out@, k) == {
                if spec_assoc_get(ar0, k) is Some {
                    None::<Vec<GolangPackage>>
                } else if spec_assoc_get(un0.take(j + 1), k) is Some {
                    spec_assoc_get(un0.take(j + 1), k)
                } else if spec_assoc_get(un0, k) is Some {
                    None::<Vec<GolangPackage>>
                } else {
                    spec_assoc_get(st0, k)
                }
            } by {
                assert(un0.take(j + 1) =~= un0.take(j as int).push(un0[j as int]));
                lemma_assoc_get_push(un0.take(j as int), un0[j as int], k);
                lemma_assoc_get_prefix(un0, j as int, k);
                lemma_assoc_get_some_of_index(un0, j as int);
                if out@.len() > old_out.len() {
                    assert(out@ =~= old_out.push(un0[j as int]));
                    lemma_assoc_get_push(old_out, un0[j as int], k);
                } else {
                    assert(spec_assoc_get(out@, k) == spec_assoc_get(old_out, k));
                }
            }
        }
        j = j + 1;
    }
    proof {
        assert(un0.take(j as int) =~= un0);
    }
    let mut t: usize = 0;
    proof {
        assert(archive@ =~= ar0.skip(0));
    }
    while archive.len() > 0
        invariant
            ar0.len() <= usize::MAX,
            t + archive@.len() == ar0.len(),
            archive@ == ar0.skip(t as int),
            forall|k: Seq<char>|
                #[trigger] spec_assoc_get(out@, k) == {
                    if spec_assoc_get(ar0.take(t as int), k) is Some {
                        spec_assoc_get(ar0.take(t as int), k)
                    } else if spec_assoc_get(ar0, k) is Some {
                        None::<Vec<GolangPackage>>
                    } else if spec_assoc_get(un0, k) is Some {
                        spec_assoc_get(un0, k)
                    } else {
                        spec_assoc_get(st0, k)
                    }
                },
        decreases archive@.len(),
    {
        let e = archive.remove(0);
        proof {
            assert(e == ar0[t as int]);
            assert(archive@ =~= ar0.skip(t + 1));
        }
        let ghost old_out = out@;
        out.push(e);
        proof {
            assert forall|k: Seq<char>| #[trigger] spec_assoc_get(out@, k) == {
                if spec_assoc_get(ar0.take(t + 1), k) is Some {
                    spec_assoc_get(ar0.take(t + 1), k)
                } else if spec_assoc_get(ar0, k) is Some {
                    None::<Vec<GolangPackage>>
                } else if spec_assoc_get(un0, k) is Some {
                    spec_assoc_get(un0, k)
                } else {
                    spec_assoc_get(st0, k)
                }
            } by {
                assert(ar0.take(t + 1) =~= ar0.take(t as int).push(ar0[t as int]));
                lemma_assoc_get_push(ar0.take(t as int), ar0[t as int], k);
                lemma_assoc_get_prefix(ar0, t as int, k);
                lemma_assoc_get_some_of_index(ar0, t as int);
                assert(out@ =~= old_out.push(ar0[t as int]));
                lemma_assoc_get_push(old_out, ar0[t as int], k);
            }
        }
        t = t + 1;
    }
    proof {
        assert(ar0.take(t as int) =~= ar0);
    }
    out
}

/// A key found in a prefix is found, with the same table, in the whole
/// list.
proof fn lemma_assoc_get_prefix<V>(m: Seq<(String, V)>, i: int, k: Seq<char>)
    requires
        0 <= i <= m.len(),
    ensures
        spec_assoc_get(m.take(i), k) is Some ==> spec_assoc_get(m.take(i), k) == spec_assoc_get(
            m,
            k,
        ),
    decreases i,
{
    if i > 0 && m.len() > 0 {
        assert(m.take(i)[0] == m[0]);
        if m[0].0@ != k {
            assert(m.take(i).drop_first() =~= m.drop_first().take(i - 1));
            lemma_assoc_get_prefix(m.drop_first(), i - 1, k);
        }
    } else {
        assert(m.take(0) =~= Seq::<(String, V)>::empty());
    }
}

// ---------------------------------------------------------------------------
// Page parsing, over the scraper wrappers.
// ---------------------------------------------------------------------------

/// Reads one section's version tables out of the parsed page; within the
/// section a later table for the same version token supersedes an earlier
/// one.
fn collect_section(doc: &scraper::Html, section_selector: &str, version_type: &str) -> GoSection {
    let mut out: GoSection = Vec::new();
    let sel = match parse_selector(section_selector) {
        Some(s) => s,
        None => {
            return out;
        },
    };
    let table_sel = match parse_selector("table.downloadtable") {
        Some(s) => s,
        None => {
            return out;
        },
    };
    let tr_sel = match parse_selector("tbody > tr") {
        Some(s) => s,
        None => {
            return out;
        },
    };
    let td_sel = match parse_selector("td") {
        Some(s) => s,
        None => {
            return out;
        },
    };
    let a_sel = match parse_selector("a") {
        Some(s) => s,
        None => {
            return out;
        },
    };
    let tt_sel = match parse_selector("tt") {
        Some(s) => s,
        None => {
            return out;
        },
    };
    let divs = select_in_document(doc, &sel);
    let nd = divs.len();
    let mut d: usize = 0;
    while d < nd
        invariant
            d <= nd,
            nd == divs@.len(),
        decreases nd - d,
    {
        let div = &divs[d];
        d = d + 1;
        let version = match element_attr(div, "id") {
            Some(v) => v,
            None => {
                continue;
            },
        };
        let tables = select_in_element(div, &table_sel);
        let nt = tables.len();
        let mut t: usize = 0;
        while t < nt
            invariant
                t <= nt,
                nt == tables@.len(),
            decreases nt - t,
        {
            let table = &tables[t];
            t = t + 1;
            let mut items: Vec<GolangPackage> = Vec::new();
            let trs = select_in_element(table, &tr_sel);
            let nr = trs.len();
            let mut r: usize = 0;
            while r < nr
                invariant
                    r <= nr,
                    nr == trs@.len(),
                decreases nr - r,
            {
                let tr = &trs[r];
                r = r + 1;
                let tds = select_in_element(tr, &td_sel);
                if tds.len() < 6 {
                    continue;
                }
                let links = select_in_element(&tds[0], &a_sel);
                if links.len() == 0 {
                    continue;
                }
                let tts = select_in_element(&tds[5], &tt_sel);
                let checksum = if tts.len() == 0 {
                    element_inner_html(&tds[5])
                } else {
                    element_inner_html(&tts[0])
                };
                let url = match element_attr(&links[0], "href") {
                    Some(u) => u,
                    None => {
                        continue;
                    },
                };
                items.push(
                    GolangPackage {
                        version_type: version_type.to_owned(),
                        file_name: element_inner_html(&links[0]),
                        os: element_inner_html(&tds[2]),
                        kind: element_inner_html(&tds[1]),
                        arch: element_inner_html(&tds[3]),
                        checksum,
                        size: element_inner_html(&tds[4]),
                        url,
                    },
                );
            }
            if items.len() > 0 {
                out.insert(0, (version.clone(), items));
            }
        }
    }
    out
}

/// Parses the whole Go listing page into the merged version table.
pub fn parse_golang_official(html: &str) -> GoSection {
    let doc = parse_document(html);
    let stable = collect_section(&doc, "#stable ~ div[id^=\"go\"]", "stable");
    let unstable = collect_section(&doc, "#unstable ~ div[id^=\"go\"]", "unstable");
    let archive = collect_section(&doc, "#archive div[id^=\"go\"]", "archive");
    merge_go_sections(stable, unstable, archive)
}

/// The table entries whose version token the grammar accepts, in order.
pub open spec fn spec_go_accepted(entries: Seq<(String, Vec<GolangPackage>)>) -> Seq<
    (String, Vec<GolangPackage>),
>
    decreases entries.len(),
{
    if entries.len() == 0 {
        Seq::empty()
    } else {
        let rest = spec_go_accepted(entries.drop_first());
        if spec_parse_go_semver(entries[0].0@) is Some {
            seq![entries[0]] + rest
        } else {
            rest
        }
    }
}

proof fn lemma_go_accepted_push(entries: Seq<(String, Vec<GolangPackage>)>, e: (
    String,
    Vec<GolangPackage>,
))
    ensures
        spec_go_accepted(entries.push(e)) == spec_go_accepted(entries) + spec_go_accepted(seq![e]),
    decreases entries.len(),
{
    if entries.len() == 0 {
        assert(entries.push(e)[0] == e);
        assert(entries.push(e).drop_first() =~= Seq::<(String, Vec<GolangPackage>)>::empty());
        assert(seq![e][0] == e);
        assert(seq![e].drop_first() =~= Seq::<(String, Vec<GolangPackage>)>::empty());
        assert(spec_go_accepted(entries) + spec_go_accepted(seq![e]) =~= spec_go_accepted(seq![e]));
    } else {
        assert(entries.push(e)[0] == entries[0]);
        assert(entries.push(e).drop_first() =~= entries.drop_first().push(e));
        lemma_go_accepted_push(entries.drop_first(), e);
        if spec_parse_go_semver(entries[0].0@) is Some {
            assert(seq![entries[0]] + (spec_go_accepted(entries.drop_first()) + spec_go_accepted(
                seq![e],
            )) =~= (seq![entries[0]] + spec_go_accepted(entries.drop_first())) + spec_go_accepted(
                seq![e],
            ));
        }
    }
}

/// Turns the merged table into releases: exactly the entries whose version
/// token the grammar accepts survive, in order, each keeping its token and
/// its packages, with the ordering tuple the grammar reads.
pub fn go_versions_from_section(section: GoSection) -> (r: Vec<GolangVersion>)
    ensures
        r@.len() == spec_go_accepted(section@).len(),
        forall|i: int|
            0 <= i < r@.len() ==> {
                &&& (#[trigger] r@[i]).version == spec_go_accepted(section@)[i].0
                &&& r@[i].packages == spec_go_accepted(section@)[i].1
                &&& Some(r@[i].sem_version@) == spec_parse_go_semver(
                    spec_go_accepted(section@)[i].0@,
                )
            },
{
    let ghost s0 = section@;
    let mut section = section;
    let mut r: Vec<GolangVersion> = Vec::new();
    let mut i: usize = 0;
    proof {
        assert(section@ =~= s0.skip(0));
        assert(spec_go_accepted(s0.take(0)) =~= Seq::<(String, Vec<GolangPackage>)>::empty());
    }
    let n = section.len();
    while section.len() > 0
        invariant
            s0.len() <= usize::MAX,
            i + section@.len() == s0.len(),
            section@ == s0.skip(i as int),
            r@.len() == spec_go_accepted(s0.take(i as int)).len(),
            forall|j: int|
                0 <= j < r@.len() ==> {
                    &&& (#[trigger] r@[j]).version == spec_go_accepted(s0.take(i as int))[j].0
                    &&& r@[j].packages == spec_go_accepted(s0.take(i as int))[j].1
                    &&& Some(r@[j].sem_version@) == spec_parse_go_semver(
                        spec_go_accepted(s0.take(i as int))[j].0@,
                    )
                },
        decreases section@.len(),
    {
        let e = section.remove(0);
        proof {
            assert(e == s0[i as int]);
            assert(section@ =~= s0.skip(i + 1));
            assert(s0.take(i + 1) =~= s0.take(i as int).push(s0[i as int]));
            lemma_go_accepted_push(s0.take(i as int), s0[i as int]);
            assert(seq![s0[i as int]][0] == s0[i as int]);
            assert(seq![s0[i as int]].drop_first() =~= Seq::<(String, Vec<GolangPackage>)>::empty());
            assert(spec_go_accepted(Seq::<(String, Vec<GolangPackage>)>::empty()) =~= Seq::<
                (String, Vec<GolangPackage>),
            >::empty());
        }
        let ghost old_r = r@;
        match GolangVersion::from_packages(e.0, e.1) {
            Some(g) => {
                r.push(g);
            },
            None => {
            },
        }
        proof {
            assert forall|j: int| 0 <= j < r@.len() implies {
                &&& (#[trigger] r@[j]).version == spec_go_accepted(s0.take(i + 1))[j].0
                &&& r@[j].packages == spec_go_accepted(s0.take(i + 1))[j].1
                &&& Some(r@[j].sem_version@) == spec_parse_go_semver(
                    spec_go_accepted(s0.take(i + 1))[j].0@,
                )
            } by {
                if j < old_r.len() {
                    assert(r@[j] == old_r[j]);
                    assert(spec_go_accepted(s0.take(i + 1))[j] == spec_go_accepted(
                        s0.take(i as int),
                    )[j]);
                }
            }
        }
        i = i + 1;
    }
    proof {
        assert(s0.take(i as int) =~= s0);
    }
    r
}

// ---------------------------------------------------------------------------
// The install request.
// ---------------------------------------------------------------------------

/// The download URL: a path-only catalog link is rooted at the Go site.
pub open spec fn spec_go_url(u: Seq<char>) -> Seq<char> {
    if spec_starts_with(u, "/"@) {
        "https://go.dev"@ + u
    } else {
        u
    }
}

/// The request one selected Go package yields: the installed directory is
/// the canonical rendering of the ordering tuple, the archive always
/// unpacks to a `go` folder, an inline SHA-256 digest guards the download
/// when the row carries one, and the link is repointed unless the caller
/// asked not to.
pub open spec fn spec_go_request_ok(
    rq: InstallRequest,
    v: GolangVersion,
    p: GolangPackage,
    no_use: bool,
) -> bool {
    &&& rq.version_dir@ == spec_format_semver(v.sem_version@)
    &&& rq.archive_file@ == p.file_name@
    &&& rq.url@ == spec_go_url(p.url@)
    &&& (p.checksum@.len() == 0 ==> rq.checksum is Absent)
    &&& (p.checksum@.len() > 0 ==> (rq.checksum matches ChecksumSource::Inline { method, digest }
        && method == ChecksumMethod::Sha256 && digest@ == p.checksum@))
    &&& (rq.extract_dir matches ExtractDirSource::Fixed { name } && name@ == "go"@)
    &&& rq.link_after == !no_use
}

/// Builds the pipeline request for one selected Go package.
pub fn go_install_request(version: &GolangVersion, package: &GolangPackage, no_use: bool) -> (r:
    InstallRequest)
    ensures
        spec_go_request_ok(r, *version, *package, no_use),
        r@.version_dir == spec_format_semver(version.sem_version@),
        r@.archive_file == package.file_name@,
        r@.url == spec_go_url(package.url@),
        package.checksum@.len() == 0 ==> r.checksum is Absent,
        package.checksum@.len() > 0 ==> r.checksum == (ChecksumSource::Inline {
            method: ChecksumMethod::Sha256,
            digest: package.checksum,
        }),
        r.extract_dir matches ExtractDirSource::Fixed { name } && name@ == "go"@,
        r@.link_after == !no_use,
{
    let url = if starts_with(package.url.as_str(), "/") {
        let mut u = String::new();
        u.append("https://go.dev");
        u.append(package.url.as_str());
        proof {
            assert(u@ =~= "https://go.dev"@ + package.url@);
        }
        u
    } else {
        package.url.clone()
    };
    let checksum = if package.checksum.as_str().is_empty() {
        ChecksumSource::Absent
    } else {
        ChecksumSource::Inline { method: ChecksumMethod::Sha256, digest: package.checksum.clone() }
    };
    InstallRequest {
        version_dir: format_semver(&version.sem_version),
        archive_file: package.file_name.clone(),
        url,
        checksum,
        extract_dir: ExtractDirSource::Fixed { name: String::from_str("go") },
        link_after: !no_use,
    }
}

} // verus!
