//! The Node catalog: a JSON index whose entries each carry a version, a
//! flat list of `os-arch-kind` file tokens, and an LTS marker that may be a
//! flag or a codename. Entries become releases with packages; an install
//! request downloads from the dist tree and verifies against the release's
//! digest listing.

use vstd::prelude::*;
use crate::checksum::ChecksumMethod;
use crate::install::{ChecksumSource, ExtractDirSource, InstallRequest};
use crate::jsonval::{
    parse_json, value_as_array, value_get, value_as_str, value_as_bool, value_is_string,
    value_is_null,
};
use crate::parse::{parse_strict_semver, spec_parse_strict_semver};
use crate::resolver::VersionKey;
use crate::strutil::{
    contains_ci, spec_contains, spec_lower, lower, spec_split, split_char, str_eq,
};
use crate::version::{SemVer, spec_format_semver, format_semver};

verus! {

/// One artifact kind token of the Node index.
#[derive(Debug, Clone, Copy, PartialEq, Eq, Structural)]
pub enum PackageKind {
    Tar,
    Pkg,
    Zip7z,
    Zip,
    Msi,
    Exe,
    Unknown,
}

pub open spec fn spec_kind_of(s: Seq<char>) -> PackageKind {
    if s == "7z"@ {
        PackageKind::Zip7z
    } else if s == "exe"@ {
        PackageKind::Exe
    } else if s == "msi"@ {
        PackageKind::Msi
    } else if s == "zip"@ {
        PackageKind::Zip
    } else if s == "tar"@ {
        PackageKind::Tar
    } else if s == "pkg"@ {
        PackageKind::Pkg
    } else {
        PackageKind::Unknown
    }
}

impl PackageKind {
    pub fn from_str(k: &str) -> (r: PackageKind)
        ensures
            r == spec_kind_of(k@),
    {
        proof {
            reveal_strlit("7z");
            reveal_strlit("exe");
            reveal_strlit("msi");
            reveal_strlit("zip");
            reveal_strlit("tar");
            reveal_strlit("pkg");
            assert("7z"@.len() == 2 && "exe"@.len() == 3 && "msi"@.len() == 3 && "zip"@.len() == 3
                && "tar"@.len() == 3 && "pkg"@.len() == 3);
            assert("exe"@[0] == 'e' && "msi"@[0] == 'm' && "zip"@[0] == 'z' && "tar"@[0] == 't'
                && "pkg"@[0] == 'p');
        }
        if str_eq(k, "7z") {
            PackageKind::Zip7z
        } else if str_eq(k, "exe") {
            PackageKind::Exe
        } else if str_eq(k, "msi") {
            PackageKind::Msi
        } else if str_eq(k, "zip") {
            PackageKind::Zip
        } else if str_eq(k, "tar") {
            PackageKind::Tar
        } else if str_eq(k, "pkg") {
            PackageKind::Pkg
        } else {
            PackageKind::Unknown
        }
    }

    /// The archive file extension of this kind; the tarball stands in for
    /// kinds with no own one.
    pub open spec fn spec_to_str(self) -> Seq<char> {
        match self {
            PackageKind::Exe => "exe"@,
            PackageKind::Msi => "msi"@,
            PackageKind::Zip => "zip"@,
            PackageKind::Zip7z => "7z"@,
            PackageKind::Tar => "tar.gz"@,
            PackageKind::Pkg => "pkg"@,
            PackageKind::Unknown => "tar.gz"@,
        }
    }

    pub fn to_str(&self) -> (r: &'static str)
        ensures
            r@ == self.spec_to_str(),
    {
        match self {
            PackageKind::Exe => "exe",
            PackageKind::Msi => "msi",
            PackageKind::Zip => "zip",
            PackageKind::Zip7z => "7z",
            PackageKind::Tar => "tar.gz",
            PackageKind::Pkg => "pkg",
            PackageKind::Unknown => "tar.gz",
        }
    }

    /// Only the platform archive kinds are installable by the extractor.
    pub open spec fn spec_is_archive(self) -> bool {
        self == PackageKind::Zip || self == PackageKind::Zip7z || self == PackageKind::Tar
    }

    pub fn is_archive(&self) -> (r: bool)
        ensures
            r == self.spec_is_archive(),
    {
        match self {
            PackageKind::Zip => true,
            PackageKind::Zip7z => true,
            PackageKind::Tar => true,
            _ => false,
        }
    }
}

/// One downloadable Node artifact.
#[derive(Debug, Clone)]
pub struct NodePackage {
    pub os: String,
    pub arch: String,
    pub kind: PackageKind,
}

/// The LTS marker of one index entry: a flag, a codename, or anything
/// else.
#[derive(Debug, Clone)]
pub enum LtsTag {
    Flag(bool),
    Named(String),
    Other,
}

/// One entry of the index, as plain data.
#[derive(Debug, Clone)]
pub struct VersionItem {
    pub version: String,
    pub files: Vec<String>,
    pub npm: Option<String>,
    pub lts: LtsTag,
}

/// A non-empty codename means long-term support; a flag speaks for
/// itself; anything else, an empty codename included, does not.
pub open spec fn spec_is_lts(t: LtsTag) -> bool {
    match t {
        LtsTag::Flag(b) => b,
        LtsTag::Named(s) => s@.len() > 0,
        LtsTag::Other => false,
    }
}

impl VersionItem {
    pub fn is_lts(&self) -> (r: bool)
        ensures
            r == spec_is_lts(self.lts),
    {
        match &self.lts {
            LtsTag::Flag(b) => *b,
            LtsTag::Named(s) => !s.as_str().is_empty(),
            LtsTag::Other => false,
        }
    }
}

/// The packages a file-token list yields: tokens split at hyphens, entries
/// with fewer than two parts dropped, a missing third part an unknown
/// kind.
pub open spec fn spec_node_packages(files: Seq<Seq<char>>) -> Seq<(Seq<char>, Seq<char>, PackageKind)>
    decreases files.len(),
{
    if files.len() == 0 {
        Seq::empty()
    } else {
        let toks = spec_split(files[0], '-');
        let rest = spec_node_packages(files.drop_first());
        if toks.len() <= 1 {
            rest
        } else {
            seq![
                (
                    toks[0],
                    toks[1],
                    if toks.len() < 3 {
                        PackageKind::Unknown
                    } else {
                        spec_kind_of(toks[2])
                    },
                ),
            ] + rest
        }
    }
}

proof fn lemma_node_packages_push(files: Seq<Seq<char>>, e: Seq<char>)
    ensures
        spec_node_packages(files.push(e)) == spec_node_packages(files) + spec_node_packages(
            seq![e],
        ),
    decreases files.len(),
{
    if files.len() == 0 {
        assert(files.push(e)[0] == e);
        assert(files.push(e).drop_first() =~= Seq::<Seq<char>>::empty());
        assert(seq![e][0] == e);
        assert(seq![e].drop_first() =~= Seq::<Seq<char>>::empty());
        assert(spec_node_packages(files) + spec_node_packages(seq![e]) =~= spec_node_packages(
            seq![e],
        ));
    } else {
        assert(files.push(e)[0] == files[0]);
        assert(files.push(e).drop_first() =~= files.drop_first().push(e));
        lemma_node_packages_push(files.drop_first(), e);
        let toks = spec_split(files[0], '-');
        if toks.len() <= 1 {
        } else {
            let head = seq![
                (
                    toks[0],
                    toks[1],
                    if toks.len() < 3 {
                        PackageKind::Unknown
                    } else {
                        spec_kind_of(toks[2])
                    },
                ),
            ];
            assert(head + (spec_node_packages(files.drop_first()) + spec_node_packages(seq![e]))
                =~= (head + spec_node_packages(files.drop_first())) + spec_node_packages(seq![e]));
        }
    }
}

/// The package list as the specifications see it.
pub open spec fn spec_packages_view(ps: Seq<NodePackage>) -> Seq<(Seq<char>, Seq<char>, PackageKind)> {
    ps.map_values(|p: NodePackage| (p.os@, p.arch@, p.kind))
}

/// One Node release.
#[derive(Debug, Clone)]
pub struct NodeVersion {
    pub version: String,
    pub sem_version: SemVer,
    pub npm_version: Option<String>,
    pub lts: bool,
    pub packages: Vec<NodePackage>,
}

impl NodeVersion {
    /// Builds a release from one index entry: the version loses its leading
    /// marker character and must then read as a strict semantic version,
    /// and the file tokens become packages.
    pub fn from(item: &VersionItem) -> (r: Option<NodeVersion>)
        ensures
            (r is Some) == (item.version@.len() > 0 && spec_parse_strict_semver(
                item.version@.skip(1),
            ) is Some),
            r matches Some(v) ==> {
                &&& v.version@ == item.version@
                &&& Some(v.sem_version@) == spec_parse_strict_semver(item.version@.skip(1))
                &&& v.lts == spec_is_lts(item.lts)
                &&& spec_packages_view(v.packages@) == spec_node_packages(
                    item.files@.map_values(|f: String| f@),
                )
            },
    {
        let n = item.version.as_str().unicode_len();
        if n == 0 {
            return None;
        }
        let tail = item.version.as_str().substring_char(1, n);
        let sem = match parse_strict_semver(tail) {
            Some(s) => s,
            None => {
                proof {
                    assert(item.version@.skip(1) =~= item.version@.subrange(
                        1,
                        item.version@.len() as int,
                    ));
                }
                return None;
            },
        };
        proof {
            assert(item.version@.skip(1) =~= item.version@.subrange(
                1,
                item.version@.len() as int,
            ));
        }
        let mut packages: Vec<NodePackage> = Vec::new();
        let nf = item.files.len();
        let mut i: usize = 0;
        let ghost fv = item.files@.map_values(|f: String| f@);
        proof {
            assert(fv.take(0) =~= Seq::<Seq<char>>::empty());
        }
        while i < nf
            invariant
                i <= nf,
                nf == item.files@.len(),
                fv == item.files@.map_values(|f: String| f@),
                spec_packages_view(packages@) == spec_node_packages(fv.take(i as int)),
            decreases nf - i,
        {
            let toks = split_char(item.files[i].as_str(), '-');
            let ghost old_ps = packages@;
            if toks.len() > 1 {
                let kind = if toks.len() < 3 {
                    PackageKind::Unknown
                } else {
                    PackageKind::from_str(toks[2].as_str())
                };
                proof {
                    assert(toks.deep_view()[0] == toks@[0]@);
                    assert(toks.deep_view()[1] == toks@[1]@);
                    if toks@.len() >= 3 {
                        assert(toks.deep_view()[2] == toks@[2]@);
                    }
                }
                packages.push(
                    NodePackage { os: toks[0].clone(), arch: toks[1].clone(), kind },
                );
            }
            proof {
                assert(fv.take(i + 1) =~= fv.take(i as int).push(fv[i as int]));
                lemma_node_packages_push(fv.take(i as int), fv[i as int]);
                assert(fv[i as int] == item.files@[i as int]@);
                assert(seq![fv[i as int]][0] == fv[i as int]);
                assert(seq![fv[i as int]].drop_first() =~= Seq::<Seq<char>>::empty());
                assert(spec_node_packages(Seq::<Seq<char>>::empty()) == Seq::<
                    (Seq<char>, Seq<char>, PackageKind),
                >::empty());
                if packages@.len() > old_ps.len() {
                    assert(spec_packages_view(packages@) =~= spec_packages_view(old_ps)
                        + spec_node_packages(seq![fv[i as int]]));
                } else {
                    assert(spec_packages_view(packages@) =~= spec_packages_view(old_ps)
                        + spec_node_packages(seq![fv[i as int]]));
                }
            }
            i = i + 1;
        }
        proof {
            assert(fv.take(nf as int) =~= fv);
        }
        let npm = match &item.npm {
            Some(s) => Some(s.clone()),
            None => None,
        };
        Some(
            NodeVersion {
                version: item.version.clone(),
                sem_version: sem,
                npm_version: npm,
                lts: item.is_lts(),
                packages,
            },
        )
    }

    /// Whether the raw version token holds the filter text,
    /// case-insensitively.
    pub fn is_match(&self, filter: &str) -> (r: bool)
        ensures
            r == spec_contains(spec_lower(self.version@), spec_lower(filter@)),
    {
        contains_ci(self.version.as_str(), filter)
    }

    /// Whether a package is the installable archive for this target.
    pub open spec fn spec_pkg_matches(p: NodePackage, os: Seq<char>, arch: Seq<char>) -> bool {
        &&& spec_lower(p.arch@) == arch
        &&& spec_lower(p.os@) == os
        &&& p.kind.spec_is_archive()
    }

    pub fn has_matched_package(&self, os: &str, arch: &str) -> (r: bool)
        ensures
            r == exists|i: int|
                0 <= i < self.packages@.len() && NodeVersion::spec_pkg_matches(
                    #[trigger] self.packages@[i],
                    os@,
                    arch@,
                ),
    {
        self.get_matched_package(os, arch).is_some()
    }

    /// The first package matching the target, if any.
    pub fn get_matched_package(&self, os: &str, arch: &str) -> (r: Option<&NodePackage>)
        ensures
            (r is Some) == exists|i: int|
                0 <= i < self.packages@.len() && NodeVersion::spec_pkg_matches(
                    #[trigger] self.packages@[i],
                    os@,
                    arch@,
                ),
            r matches Some(p) ==> exists|i: int|
                spec_first_node_match(self.packages@, os@, arch@, i) && *p == self.packages@[i],
    {
        let n = self.packages.len();
        let mut i: usize = 0;
        while i < n
            invariant
                i <= n,
                n == self.packages@.len(),
                forall|j: int|
                    0 <= j < i ==> !NodeVersion::spec_pkg_matches(
                        #[trigger] self.packages@[j],
                        os@,
                        arch@,
                    ),
            decreases n - i,
        {
            let p = &self.packages[i];
            let la = lower(p.arch.as_str());
            let lo = lower(p.os.as_str());
            if str_eq(la.as_str(), arch) && str_eq(lo.as_str(), os) && p.kind.is_archive() {
                proof {
                    assert(spec_first_node_match(self.packages@, os@, arch@, i as int));
                }
                return Some(&self.packages[i]);
            }
            i = i + 1;
        }
        None
    }

    /// This release as the resolver sees it.
    pub fn key(&self) -> (r: VersionKey)
        ensures
            r.display@ == self.version@,
            r.sem@ == self.sem_version@,
    {
        VersionKey { display: self.version.clone(), sem: self.sem_version.duplicate() }
    }
}

/// Package `i` is the first installable archive for the target.
pub open spec fn spec_first_node_match(
    pkgs: Seq<NodePackage>,
    os: Seq<char>,
    arch: Seq<char>,
    i: int,
) -> bool {
    &&& 0 <= i < pkgs.len()
    &&& NodeVersion::spec_pkg_matches(pkgs[i], os, arch)
    &&& forall|j: int| 0 <= j < i ==> !NodeVersion::spec_pkg_matches(#[trigger] pkgs[j], os, arch)
}

/// The listing text of one release: the canonical version, and an LTS mark
/// when it is one.
pub open spec fn spec_format_version(v: NodeVersion) -> Seq<char> {
    spec_format_semver(v.sem_version@) + (if v.lts {
        " LTS"@
    } else {
        Seq::<char>::empty()
    })
}

pub fn format_version(v: &NodeVersion) -> (r: String)
    ensures
        r@ == spec_format_version(*v),
{
    let mut r = format_semver(&v.sem_version);
    if v.lts {
        r.append(" LTS");
    }
    proof {
        assert(r@ =~= spec_format_version(*v));
    }
    r
}

// ---------------------------------------------------------------------------
// Index parsing, over the JSON wrappers.
// ---------------------------------------------------------------------------

/// The catalog could not be read: its JSON did not have the index's shape.
#[derive(Debug, Clone, PartialEq, Eq, Structural)]
pub enum HtmlError {
    Json,
}

/// Reads one index entry out of a JSON value; a missing or mistyped field
/// rejects the entry.
fn node_item_from_value(v: &serde_json::Value) -> Option<VersionItem> {
    let version = match value_get(v, "version") {
        Some(x) => match value_as_str(&x) {
            Some(s) => s,
            None => {
                return None;
            },
        },
        None => {
            return None;
        },
    };
    let files_val = match value_get(v, "files") {
        Some(x) => x,
        None => {
            return None;
        },
    };
    let files_arr = match value_as_array(&files_val) {
        Some(a) => a,
        None => {
            return None;
        },
    };
    let mut files: Vec<String> = Vec::new();
    let n = files_arr.len();
    let mut i: usize = 0;
    while i < n
        invariant
            i <= n,
            n == files_arr@.len(),
        decreases n - i,
    {
        match value_as_str(&files_arr[i]) {
            Some(s) => {
                files.push(s);
            },
            None => {
                return None;
            },
        }
        i = i + 1;
    }
    let npm = match value_get(v, "npm") {
        Some(x) => {
            if value_is_null(&x) {
                None
            } else {
                match value_as_str(&x) {
                    Some(s) => Some(s),
                    None => {
                        return None;
                    },
                }
            }
        },
        None => None,
    };
    let lts_val = match value_get(v, "lts") {
        Some(x) => x,
        None => {
            return None;
        },
    };
    let lts = match value_as_bool(&lts_val) {
        Some(b) => LtsTag::Flag(b),
        None => {
            if value_is_string(&lts_val) {
                match value_as_str(&lts_val) {
                    Some(s) => LtsTag::Named(s),
                    None => LtsTag::Other,
                }
            } else {
                LtsTag::Other
            }
        },
    };
    Some(VersionItem { version, files, npm, lts })
}

/// Parses the whole index document into its entries; text that is not a
/// JSON array of entries is a `Json` failure.
pub fn parse_node_official(text: &str) -> Result<Vec<VersionItem>, HtmlError> {
    let doc = match parse_json(text) {
        Ok(v) => v,
        Err(_) => {
            return Err(HtmlError::Json);
        },
    };
    let arr = match value_as_array(&doc) {
        Some(a) => a,
        None => {
            return Err(HtmlError::Json);
        },
    };
    let mut items: Vec<VersionItem> = Vec::new();
    let n = arr.len();
    let mut i: usize = 0;
    while i < n
        invariant
            i <= n,
            n == arr@.len(),
        decreases n - i,
    {
        match node_item_from_value(&arr[i]) {
            Some(it) => {
                items.push(it);
            },
            None => {
                return Err(HtmlError::Json);
            },
        }
        i = i + 1;
    }
    Ok(items)
}

// ---------------------------------------------------------------------------
// Target naming and the install request.
// ---------------------------------------------------------------------------

/// The OS token used in artifact file names.
pub open spec fn spec_file_name_os(os: Seq<char>) -> Seq<char> {
    let l = spec_lower(os);
    if l == "win"@ {
        "win"@
    } else if l == "osx"@ {
        "darwin"@
    } else if l == "aix"@ {
        "aix"@
    } else if l == "sunos"@ {
        "sunos"@
    } else {
        "linux"@
    }
}

pub fn convert_to_file_name_os<'a>(os: &'a str) -> (r: &'static str)
    ensures
        r@ == spec_file_name_os(os@),
{
    proof {
        reveal_strlit("win");
        reveal_strlit("osx");
        reveal_strlit("aix");
        reveal_strlit("sunos");
        assert("win"@.len() == 3 && "osx"@.len() == 3 && "aix"@.len() == 3 && "sunos"@.len() == 5);
        assert("win"@[0] == 'w' && "osx"@[0] == 'o' && "aix"@[0] == 'a');
    }
    let l = lower(os);
    if str_eq(l.as_str(), "win") {
        "win"
    } else if str_eq(l.as_str(), "osx") {
        "darwin"
    } else if str_eq(l.as_str(), "aix") {
        "aix"
    } else if str_eq(l.as_str(), "sunos") {
        "sunos"
    } else {
        "linux"
    }
}

/// The host's OS name as the Node index writes it.
pub open spec fn spec_node_os(os: Seq<char>) -> Seq<char> {
    let l = spec_lower(os);
    if l == "windows"@ {
        "win"@
    } else if l == "macos"@ {
        "osx"@
    } else if l == "aix"@ {
        "aix"@
    } else if l == "sunos"@ {
        "sunos"@
    } else {
        "linux"@
    }
}

pub fn convert_to_node_os<'a>(os: &'a str) -> (r: &'static str)
    ensures
        r@ == spec_node_os(os@),
{
    proof {
        reveal_strlit("windows");
        reveal_strlit("macos");
        reveal_strlit("aix");
        reveal_strlit("sunos");
        assert("windows"@.len() == 7 && "macos"@.len() == 5 && "aix"@.len() == 3 && "sunos"@.len()
            == 5);
        assert("macos"@[0] == 'm' && "sunos"@[0] == 's');
    }
    let l = lower(os);
    if str_eq(l.as_str(), "windows") {
        "win"
    } else if str_eq(l.as_str(), "macos") {
        "osx"
    } else if str_eq(l.as_str(), "aix") {
        "aix"
    } else if str_eq(l.as_str(), "sunos") {
        "sunos"
    } else {
        "linux"
    }
}

/// The host's architecture as the Node index writes it.
pub open spec fn spec_node_arch(arch: Seq<char>) -> Seq<char> {
    if arch == "x86_64"@ {
        "x64"@
    } else if arch == "aarch64"@ {
        "arm64"@
    } else if arch == "loongarch64"@ {
        "loong64"@
    } else if arch == "powerpc"@ {
        "ppc"@
    } else if arch == "powerpc64"@ {
        "ppc64"@
    } else if arch == "powerpc64le"@ {
        "ppc64le"@
    } else {
        arch
    }
}

pub fn convert_to_node_arch<'a>(arch: &'a str) -> (r: &'a str)
    ensures
        r@ == spec_node_arch(arch@),
{
    proof {
        reveal_strlit("x86_64");
        reveal_strlit("aarch64");
        reveal_strlit("loongarch64");
        reveal_strlit("powerpc");
        reveal_strlit("powerpc64");
        reveal_strlit("powerpc64le");
        assert("x86_64"@.len() == 6 && "aarch64"@.len() == 7 && "loongarch64"@.len() == 11
            && "powerpc"@.len() == 7 && "powerpc64"@.len() == 9 && "powerpc64le"@.len() == 11);
        assert("aarch64"@[0] == 'a' && "powerpc"@[0] == 'p' && "loongarch64"@[0] == 'l'
            && "powerpc64le"@[0] == 'p');
        assert("powerpc64le"@[1] == 'o' && "loongarch64"@[1] == 'o');
        assert("powerpc64le"@[2] == 'w' && "loongarch64"@[2] == 'o');
    }
    if str_eq(arch, "x86_64") {
        "x64"
    } else if str_eq(arch, "aarch64") {
        "arm64"
    } else if str_eq(arch, "loongarch64") {
        "loong64"
    } else if str_eq(arch, "powerpc") {
        "ppc"
    } else if str_eq(arch, "powerpc64") {
        "ppc64"
    } else if str_eq(arch, "powerpc64le") {
        "ppc64le"
    } else {
        arch
    }
}

/// The base name of one release's artifact for a target:
/// `node-v<version>-<os>-<arch>`.
pub open spec fn spec_node_file_name(version: Seq<char>, os: Seq<char>, arch: Seq<char>) -> Seq<
    char,
> {
    "node-v"@ + version + "-"@ + os + "-"@ + arch
}

/// The request one selected Node package yields: the artifact name follows
/// the dist tree's convention, the digest comes from the release's
/// `SHASUMS256.txt` listing, extraction unpacks into the artifact's
/// base-name folder, and the link is repointed unless the caller asked not
/// to.
pub open spec fn spec_node_request_ok(
    rq: InstallRequest,
    v: NodeVersion,
    kind: PackageKind,
    file_os: Seq<char>,
    arch: Seq<char>,
    no_use: bool,
) -> bool {
    &&& rq.version_dir@ == spec_format_semver(v.sem_version@)
    &&& rq.archive_file@ == spec_node_file_name(spec_format_semver(v.sem_version@), file_os, arch)
        + "."@ + kind.spec_to_str()
    &&& rq.url@ == "https://nodejs.org/dist/v"@ + spec_format_semver(v.sem_version@) + "/"@
        + rq.archive_file@
    &&& (rq.checksum matches ChecksumSource::FetchText { url, method, lookup_file } && url@
        == "https://nodejs.org/dist/v"@ + spec_format_semver(v.sem_version@) + "/SHASUMS256.txt"@
        && method == ChecksumMethod::Sha256 && lookup_file == true)
    &&& (rq.extract_dir matches ExtractDirSource::Fixed { name } && name@ == spec_node_file_name(
        spec_format_semver(v.sem_version@),
        file_os,
        arch,
    ))
    &&& rq.link_after == !no_use
}

/// Builds the pipeline request for one selected Node package.
pub fn node_install_request(
    version: &NodeVersion,
    kind: PackageKind,
    file_os: &str,
    arch: &str,
    no_use: bool,
) -> (r: InstallRequest)
    ensures
        spec_node_request_ok(r, *version, kind, file_os@, arch@, no_use),
        r@.version_dir == spec_format_semver(version.sem_version@),
        r@.archive_file == spec_node_file_name(
            spec_format_semver(version.sem_version@),
            file_os@,
            arch@,
        ) + "."@ + kind.spec_to_str(),
        r@.url == "https://nodejs.org/dist/v"@ + spec_format_semver(version.sem_version@) + "/"@
            + r@.archive_file,
        r.checksum matches ChecksumSource::FetchText { url, method, lookup_file } && url@
            == "https://nodejs.org/dist/v"@ + spec_format_semver(version.sem_version@)
            + "/SHASUMS256.txt"@ && method == ChecksumMethod::Sha256 && lookup_file == true,
        r.extract_dir matches ExtractDirSource::Fixed { name } && name@ == spec_node_file_name(
            spec_format_semver(version.sem_version@),
            file_os@,
            arch@,
        ),
        r@.link_after == !no_use,
{
    let version_str = format_semver(&version.sem_version);
    let mut base = String::new();
    base.append("node-v");
    base.append(version_str.as_str());
    base.append("-");
    base.append(file_os);
    base.append("-");
    base.append(arch);
    proof {
        assert(base@ =~= spec_node_file_name(version_str@, file_os@, arch@));
    }
    let mut archive = base.clone();
    archive.append(".");
    archive.append(kind.to_str());
    let mut url = String::new();
    url.append("https://nodejs.org/dist/v");
    url.append(version_str.as_str());
    url.append("/");
    url.append(archive.as_str());
    let mut sum_url = String::new();
    sum_url.append("https://nodejs.org/dist/v");
    sum_url.append(version_str.as_str());
    sum_url.append("/SHASUMS256.txt");
    proof {
        assert(archive@ =~= spec_node_file_name(version_str@, file_os@, arch@) + "."@
            + kind.spec_to_str());
        assert(url@ =~= "https://nodejs.org/dist/v"@ + version_str@ + "/"@ + archive@);
        assert(sum_url@ =~= "https://nodejs.org/dist/v"@ + version_str@ + "/SHASUMS256.txt"@);
    }
    InstallRequest {
        version_dir: version_str,
        archive_file: archive,
        url,
        checksum: ChecksumSource::FetchText {
            url: sum_url,
            method: ChecksumMethod::Sha256,
            lookup_file: true,
        },
        extract_dir: ExtractDirSource::Fixed { name: base },
        link_after: !no_use,
    }
}

} // verus!
