//! The Java model: two vendors with their own catalogs, releases grouped
//! from per-artifact rows, and three ways a row may carry its digest — an
//! MD5 value, a SHA-256 value, or a link to a digest file.

use vstd::prelude::*;
use crate::checksum::ChecksumMethod;
use crate::install::{ChecksumSource, ExtractDirSource, InstallRequest};
use crate::parse::{
    parse_java_semver, spec_parse_java_semver, spec_first_digit, spec_digits_end,
};
use crate::resolver::VersionKey;
use crate::strutil::{
    contains_ci, spec_contains, spec_lower, lower, spec_is_digit, str_eq, starts_with,
    spec_starts_with, spec_split, split_char,
};
use crate::version::SemVer;

verus! {

/// One artifact kind token of the Java catalogs.
#[derive(Debug, Clone, Copy, PartialEq, Eq, Structural)]
pub enum PackageKind {
    Tar,
    Pkg,
    Zip7z,
    Zip,
    Msi,
    Exe,
    Unknown,
}

pub open spec fn spec_kind_of(s: Seq<char>) -> PackageKind {
    if s == "7z"@ {
        PackageKind::Zip7z
    } else if s == "exe"@ {
        PackageKind::Exe
    } else if s == "msi"@ {
        PackageKind::Msi
    } else if s == "zip"@ {
        PackageKind::Zip
    } else if s == "tar.gz"@ {
        PackageKind::Tar
    } else if s == "pkg"@ {
        PackageKind::Pkg
    } else {
        PackageKind::Unknown
    }
}

impl PackageKind {
    pub fn from_str(k: &str) -> (r: PackageKind)
        ensures
            r == spec_kind_of(k@),
    {
        proof {
            reveal_strlit("7z");
            reveal_strlit("exe");
            reveal_strlit("msi");
            reveal_strlit("zip");
            reveal_strlit("tar.gz");
            reveal_strlit("pkg");
            assert("7z"@.len() == 2 && "exe"@.len() == 3 && "msi"@.len() == 3 && "zip"@.len() == 3
                && "tar.gz"@.len() == 6 && "pkg"@.len() == 3);
            assert("exe"@[0] == 'e' && "msi"@[0] == 'm' && "zip"@[0] == 'z' && "pkg"@[0] == 'p');
        }
        if str_eq(k, "7z") {
            PackageKind::Zip7z
        } else if str_eq(k, "exe") {
            PackageKind::Exe
        } else if str_eq(k, "msi") {
            PackageKind::Msi
        } else if str_eq(k, "zip") {
            PackageKind::Zip
        } else if str_eq(k, "tar.gz") {
            PackageKind::Tar
        } else if str_eq(k, "pkg") {
            PackageKind::Pkg
        } else {
            PackageKind::Unknown
        }
    }

    pub open spec fn spec_to_str(self) -> Seq<char> {
        match self {
            PackageKind::Exe => "exe"@,
            PackageKind::Msi => "msi"@,
            PackageKind::Zip => "zip"@,
            PackageKind::Zip7z => "7z"@,
            PackageKind::Tar => "tar.gz"@,
            PackageKind::Pkg => "pkg"@,
            PackageKind::Unknown => "tar.gz"@,
        }
    }

    pub fn to_str(&self) -> (r: &'static str)
        ensures
            r@ == self.spec_to_str(),
    {
        match self {
            PackageKind::Exe => "exe",
            PackageKind::Msi => "msi",
            PackageKind::Zip => "zip",
            PackageKind::Zip7z => "7z",
            PackageKind::Tar => "tar.gz",
            PackageKind::Pkg => "pkg",
            PackageKind::Unknown => "tar.gz",
        }
    }

    pub open spec fn spec_is_archive(self) -> bool {
        self == PackageKind::Zip || self == PackageKind::Zip7z || self == PackageKind::Tar
    }

    pub fn is_archive(&self) -> (r: bool)
        ensures
            r == self.spec_is_archive(),
    {
        match self {
            PackageKind::Zip => true,
            PackageKind::Zip7z => true,
            PackageKind::Tar => true,
            _ => false,
        }
    }
}

/// One Java vendor, by name.
#[derive(Debug, Clone, Copy, PartialEq, Eq)]
pub struct Vendor {
    pub name: &'static str,
}

pub fn openjdk_vendor() -> (r: Vendor)
    ensures
        r.name@ == "openjdk"@,
{
    Vendor { name: "openjdk" }
}

pub fn corretto_vendor() -> (r: Vendor)
    ensures
        r.name@ == "corretto"@,
{
    Vendor { name: "corretto" }
}

/// A user-given version with the vendor's `name-` prefix taken off.
pub open spec fn spec_vendor_trim(s: Seq<char>, name: Seq<char>) -> Seq<char> {
    if spec_starts_with(s, name) && s.len() > name.len() {
        s.skip(name.len() as int + 1)
    } else {
        s
    }
}

/// The version text a vendor hands to the version grammar: the raw text,
/// except that the fourth dotted component of a Corretto version becomes
/// build metadata.
pub open spec fn spec_corretto_version_text(s: Seq<char>) -> Option<Seq<char>> {
    let i0 = spec_first_digit(s);
    if i0 < 0 {
        None
    } else {
        let e1 = spec_digits_end(s, i0);
        if !(e1 < s.len() && s[e1] == '.' && e1 + 1 < s.len() && spec_is_digit(s[e1 + 1])) {
            None
        } else {
            let e2 = spec_digits_end(s, e1 + 1);
            if !(e2 < s.len() && s[e2] == '.' && e2 + 1 < s.len() && spec_is_digit(s[e2 + 1])) {
                None
            } else {
                let e3 = spec_digits_end(s, e2 + 1);
                if e3 < s.len() && s[e3] == '.' {
                    Some(s.take(e3) + "+"@ + s.skip(e3 + 1))
                } else {
                    Some(s)
                }
            }
        }
    }
}

impl Vendor {
    pub fn from_str(s: &str) -> (r: Option<Vendor>)
        ensures
            (r is Some) == (s@ == "openjdk"@ || s@ == "corretto"@),
            s@ == "openjdk"@ ==> (r matches Some(v) && v.name@ == "openjdk"@),
            s@ == "corretto"@ ==> (r matches Some(v) && v.name@ == "corretto"@),
    {
        proof {
            reveal_strlit("openjdk");
            reveal_strlit("corretto");
            assert("openjdk"@.len() == 7 && "corretto"@.len() == 8);
        }
        if str_eq(s, "openjdk") {
            Some(Vendor { name: "openjdk" })
        } else if str_eq(s, "corretto") {
            Some(Vendor { name: "corretto" })
        } else {
            None
        }
    }

    /// Strips this vendor's `name-` prefix from a user-given version.
    pub fn trim(&self, s: &str) -> (r: String)
        ensures
            (spec_starts_with(s@, self.name@) && s@.len() > self.name@.len()) ==> r@ == s@.skip(
                self.name@.len() as int + 1,
            ),
            !(spec_starts_with(s@, self.name@) && s@.len() > self.name@.len()) ==> r@ == s@,
    {
        let nl = self.name.unicode_len();
        let sl = s.unicode_len();
        if starts_with(s, self.name) && sl > nl {
            proof {
                assert(s@.subrange(nl + 1, sl as int) =~= s@.skip(nl + 1));
            }
            s.substring_char(nl + 1, sl).to_owned()
        } else {
            s.to_owned()
        }
    }

    /// The version text handed to the grammar, after the vendor prefix is
    /// stripped: Corretto's fourth dotted component becomes build
    /// metadata; other text passes through.
    pub fn parse_version(&self, s: &str) -> (r: Option<String>)
        ensures
            self.name@ == "corretto"@ ==> {
                let trimmed = if spec_starts_with(s@, self.name@) && s@.len() > self.name@.len() {
                    s@.skip(self.name@.len() as int + 1)
                } else {
                    s@
                };
                &&& (r is Some) == (spec_corretto_version_text(trimmed) is Some)
                &&& r matches Some(t) ==> Some(t@) == spec_corretto_version_text(trimmed)
            },
            self.name@ == "openjdk"@ ==> {
                let trimmed = if spec_starts_with(s@, self.name@) && s@.len() > self.name@.len() {
                    s@.skip(self.name@.len() as int + 1)
                } else {
                    s@
                };
                r matches Some(t) && t@ == trimmed
            },
    {
        proof {
            reveal_strlit("openjdk");
            reveal_strlit("corretto");
            assert("openjdk"@.len() == 7 && "corretto"@.len() == 8);
        }
        let version = self.trim(s);
        if str_eq(self.name, "corretto") {
            corretto_version_text(version.as_str())
        } else if str_eq(self.name, "openjdk") {
            Some(version)
        } else {
            None
        }
    }
}

/// Rewrites a Corretto version: `17.0.3.6.1` reads as `17.0.3+6.1`.
fn corretto_version_text(s: &str) -> (r: Option<String>)
    ensures
        (r is Some) == (spec_corretto_version_text(s@) is Some),
        r matches Some(t) ==> Some(t@) == spec_corretto_version_text(s@),
{
    let n = s.unicode_len();
    let mut i0: usize = 0;
    while i0 < n && !crate::strutil::is_digit(s.get_char(i0))
        invariant
            i0 <= n,
            n == s@.len(),
            forall|j: int| 0 <= j < i0 ==> !spec_is_digit(#[trigger] s@[j]),
        decreases n - i0,
    {
        i0 = i0 + 1;
    }
    if i0 == n {
        proof {
            crate::parse::lemma_first_digit_none(s@);
        }
        return None;
    }
    proof {
        crate::parse::lemma_first_digit_at(s@, i0 as int);
    }
    let e1 = crate::parse::scan_digits(s, i0);
    if !(e1 < n && s.get_char(e1) == '.' && e1 + 1 < n && crate::strutil::is_digit(
        s.get_char(e1 + 1),
    )) {
        return None;
    }
    let e2 = crate::parse::scan_digits(s, e1 + 1);
    if !(e2 < n && s.get_char(e2) == '.' && e2 + 1 < n && crate::strutil::is_digit(
        s.get_char(e2 + 1),
    )) {
        return None;
    }
    let e3 = crate::parse::scan_digits(s, e2 + 1);
    if e3 < n && s.get_char(e3) == '.' {
        let mut out = s.substring_char(0, e3).to_owned();
        out.append("+");
        out.append(s.substring_char(e3 + 1, n));
        proof {
            assert(s@.subrange(0, e3 as int) =~= s@.take(e3 as int));
            assert(s@.subrange(e3 + 1, n as int) =~= s@.skip(e3 + 1));
            assert(out@ =~= s@.take(e3 as int) + "+"@ + s@.skip(e3 + 1));
        }
        Some(out)
    } else {
        Some(s.to_owned())
    }
}

/// One downloadable Java artifact row.
#[derive(Debug, Clone)]
pub struct JavaPackage {
    pub version: String,
    pub url: String,
    pub os: String,
    pub arch: String,
    pub kind: PackageKind,
    pub checksum_url: Option<String>,
    pub checksum_md5: Option<String>,
    pub checksum_sha256: Option<String>,
}

/// One Java release: its vendor, the raw version text, its ordering
/// tuple, and its artifact rows.
#[derive(Debug, Clone)]
pub struct JavaVersion {
    pub vendor: Vendor,
    pub version: String,
    pub sem_version: SemVer,
    pub packages: Vec<JavaPackage>,
}

impl JavaVersion {
    /// Groups Corretto rows into a release: the first row's version text,
    /// rewritten, must fit the grammar, and the ordering tuple is what the
    /// grammar reads from the rewritten text.
    pub fn from_corretto(packages: Vec<JavaPackage>) -> (r: Option<JavaVersion>)
        requires
            packages@.len() > 0,
        ensures
            (r is Some) == (spec_corretto_version_text(
                spec_vendor_trim(packages@[0].version@, "corretto"@),
            ) matches Some(t) && spec_parse_java_semver(t) is Some),
            r matches Some(v) ==> {
                &&& v.vendor.name@ == "corretto"@
                &&& v.version@ == packages@[0].version@
                &&& v.packages == packages
                &&& (spec_corretto_version_text(
                    spec_vendor_trim(packages@[0].version@, "corretto"@),
                ) matches Some(t) && Some(v.sem_version@) == spec_parse_java_semver(t))
            },
    {
        let version = packages[0].version.clone();
        let vendor = corretto_vendor();
        let text = match vendor.parse_version(version.as_str()) {
            Some(t) => t,
            None => {
                return None;
            },
        };
        match parse_java_semver(text.as_str()) {
            Some(sem) => Some(JavaVersion { vendor, version, sem_version: sem, packages }),
            None => None,
        }
    }

    /// Groups OpenJDK rows into a release: the first row's version text
    /// must fit the grammar.
    pub fn from_openjdk(packages: Vec<JavaPackage>) -> (r: Option<JavaVersion>)
        requires
            packages@.len() > 0,
        ensures
            (r is Some) == (spec_parse_java_semver(packages@[0].version@) is Some),
            r matches Some(v) ==> {
                &&& v.vendor.name@ == "openjdk"@
                &&& v.version@ == packages@[0].version@
                &&& Some(v.sem_version@) == spec_parse_java_semver(packages@[0].version@)
                &&& v.packages == packages
            },
    {
        let version = packages[0].version.clone();
        match parse_java_semver(version.as_str()) {
            Some(sem) => Some(
                JavaVersion { vendor: openjdk_vendor(), version, sem_version: sem, packages },
            ),
            None => None,
        }
    }

    pub fn is_match(&self, filter: &str) -> (r: bool)
        ensures
            r == spec_contains(spec_lower(self.version@), spec_lower(filter@)),
    {
        contains_ci(self.version.as_str(), filter)
    }

    pub open spec fn spec_pkg_matches(p: JavaPackage, os: Seq<char>, arch: Seq<char>) -> bool {
        &&& spec_lower(p.arch@) == arch
        &&& spec_lower(p.os@) == os
        &&& p.kind.spec_is_archive()
    }

    pub fn has_matched_package(&self, os: &str, arch: &str) -> (r: bool)
        ensures
            r == exists|i: int|
                0 <= i < self.packages@.len() && JavaVersion::spec_pkg_matches(
                    #[trigger] self.packages@[i],
                    os@,
                    arch@,
                ),
    {
        self.get_matched_package(os, arch).is_some()
    }

    pub fn get_matched_package(&self, os: &str, arch: &str) -> (r: Option<&JavaPackage>)
        ensures
            (r is Some) == exists|i: int|
                0 <= i < self.packages@.len() && JavaVersion::spec_pkg_matches(
                    #[trigger] self.packages@[i],
                    os@,
                    arch@,
                ),
            r matches Some(p) ==> exists|i: int|
                spec_first_java_match(self.packages@, os@, arch@, i) && *p == self.packages@[i],
    {
        let n = self.packages.len();
        let mut i: usize = 0;
        while i < n
            invariant
                i <= n,
                n == self.packages@.len(),
                forall|j: int|
                    0 <= j < i ==> !JavaVersion::spec_pkg_matches(
                        #[trigger] self.packages@[j],
                        os@,
                        arch@,
                    ),
            decreases n - i,
        {
            let p = &self.packages[i];
            let la = lower(p.arch.as_str());
            let lo = lower(p.os.as_str());
            if str_eq(la.as_str(), arch) && str_eq(lo.as_str(), os) && p.kind.is_archive() {
                proof {
                    assert(spec_first_java_match(self.packages@, os@, arch@, i as int));
                }
                return Some(&self.packages[i]);
            }
            i = i + 1;
        }
        None
    }

    /// The installed-directory name: `vendor-version`.
    pub fn get_display_name(&self) -> (r: String)
        ensures
            r@ == self.vendor.name@ + "-"@ + self.version@,
    {
        let mut r = self.vendor.name.to_owned();
        r.append("-");
        r.append(self.version.as_str());
        proof {
            assert(r@ =~= self.vendor.name@ + "-"@ + self.version@);
        }
        r
    }

    /// This release as the resolver sees it.
    pub fn key(&self) -> (r: VersionKey)
        ensures
            r.display@ == self.version@,
            r.sem@ == self.sem_version@,
    {
        VersionKey { display: self.version.clone(), sem: self.sem_version.duplicate() }
    }
}

/// Two artifact rows carry the same data.
pub open spec fn spec_java_pkg_like(a: JavaPackage, b: JavaPackage) -> bool {
    &&& a.version@ == b.version@
    &&& a.url@ == b.url@
    &&& a.os@ == b.os@
    &&& a.arch@ == b.arch@
    &&& a.kind == b.kind
    &&& ((a.checksum_url is Some) == (b.checksum_url is Some))
    &&& (a.checksum_url matches Some(u) ==> (b.checksum_url matches Some(w) && u@ == w@))
    &&& ((a.checksum_md5 is Some) == (b.checksum_md5 is Some))
    &&& (a.checksum_md5 matches Some(u) ==> (b.checksum_md5 matches Some(w) && u@ == w@))
    &&& ((a.checksum_sha256 is Some) == (b.checksum_sha256 is Some))
    &&& (a.checksum_sha256 matches Some(u) ==> (b.checksum_sha256 matches Some(w) && u@ == w@))
}

impl JavaPackage {
    /// A copy carrying the same data; unlike the derived clone, Verus
    /// knows what this one holds.
    pub fn duplicate(&self) -> (r: JavaPackage)
        ensures
            spec_java_pkg_like(r, *self),
    {
        JavaPackage {
            version: self.version.clone(),
            url: self.url.clone(),
            os: self.os.clone(),
            arch: self.arch.clone(),
            kind: self.kind,
            checksum_url: match &self.checksum_url {
                Some(u) => Some(u.clone()),
                None => None,
            },
            checksum_md5: match &self.checksum_md5 {
                Some(u) => Some(u.clone()),
                None => None,
            },
            checksum_sha256: match &self.checksum_sha256 {
                Some(u) => Some(u.clone()),
                None => None,
            },
        }
    }
}

/// Artifact row `i` is the first installable archive for the target.
pub open spec fn spec_first_java_match(
    pkgs: Seq<JavaPackage>,
    os: Seq<char>,
    arch: Seq<char>,
    i: int,
) -> bool {
    &&& 0 <= i < pkgs.len()
    &&& JavaVersion::spec_pkg_matches(pkgs[i], os, arch)
    &&& forall|j: int| 0 <= j < i ==> !JavaVersion::spec_pkg_matches(#[trigger] pkgs[j], os, arch)
}

/// The installed-directory name a listing row is matched against.
pub fn format_installed_version(vendor: &Vendor, version: &JavaVersion) -> (r: String)
    ensures
        r@ == vendor.name@ + "-"@ + version.version@,
{
    let mut r = vendor.name.to_owned();
    r.append("-");
    r.append(version.version.as_str());
    proof {
        assert(r@ =~= vendor.name@ + "-"@ + version.version@);
    }
    r
}

/// The host's OS name as the Java catalogs write it.
pub open spec fn spec_java_os(os: Seq<char>) -> Seq<char> {
    let l = spec_lower(os);
    if l == "windows"@ {
        "windows"@
    } else if l == "macos"@ {
        "macos"@
    } else {
        "linux"@
    }
}

pub fn convert_to_java_os<'a>(os: &'a str) -> (r: &'static str)
    ensures
        r@ == spec_java_os(os@),
{
    proof {
        reveal_strlit("windows");
        reveal_strlit("macos");
        assert("windows"@.len() == 7 && "macos"@.len() == 5);
    }
    let l = lower(os);
    if str_eq(l.as_str(), "windows") {
        "windows"
    } else if str_eq(l.as_str(), "macos") {
        "macos"
    } else {
        "linux"
    }
}

/// The host's architecture as the Java catalogs write it.
pub open spec fn spec_java_arch(arch: Seq<char>) -> Seq<char> {
    if arch == "x86_64"@ {
        "x64"@
    } else if arch == "loongarch64"@ {
        "loong64"@
    } else if arch == "powerpc"@ {
        "ppc"@
    } else if arch == "powerpc64"@ {
        "ppc64"@
    } else if arch == "powerpc64le"@ {
        "ppc64le"@
    } else {
        arch
    }
}

pub fn convert_to_java_arch<'a>(arch: &'a str) -> (r: &'a str)
    ensures
        r@ == spec_java_arch(arch@),
{
    proof {
        reveal_strlit("x86_64");
        reveal_strlit("loongarch64");
        reveal_strlit("powerpc");
        reveal_strlit("powerpc64");
        reveal_strlit("powerpc64le");
        assert("x86_64"@.len() == 6 && "loongarch64"@.len() == 11 && "powerpc"@.len() == 7
            && "powerpc64"@.len() == 9 && "powerpc64le"@.len() == 11);
        assert("loongarch64"@[0] == 'l' && "powerpc64le"@[0] == 'p');
    }
    if str_eq(arch, "x86_64") {
        "x64"
    } else if str_eq(arch, "loongarch64") {
        "loong64"
    } else if str_eq(arch, "powerpc") {
        "ppc"
    } else if str_eq(arch, "powerpc64") {
        "ppc64"
    } else if str_eq(arch, "powerpc64le") {
        "ppc64le"
    } else {
        arch
    }
}

/// The last `/`-separated segment of a URL: the artifact's file name.
pub open spec fn spec_last_segment(u: Seq<char>) -> Seq<char> {
    spec_split(u, '/').last()
}

pub fn last_segment(u: &str) -> (r: String)
    ensures
        r@ == spec_last_segment(u@),
{
    let parts = split_char(u, '/');
    proof {
        assert(parts.deep_view().len() > 0);
        assert(parts.deep_view().last() == parts@[parts@.len() - 1]@);
    }
    parts[parts.len() - 1].clone()
}

/// The request one selected Java package yields: the installed directory
/// is `vendor-version`, the artifact keeps its URL's file name, the digest
/// is the row's MD5 value, else its SHA-256 value, else the row's
/// digest-file link, and the extractor's reported top folder is used with
/// the file name minus its kind extension as the fallback.
pub open spec fn spec_java_request_ok(
    rq: InstallRequest,
    v: JavaVersion,
    p: JavaPackage,
    no_use: bool,
) -> bool {
    &&& rq.version_dir@ == v.vendor.name@ + "-"@ + v.version@
    &&& rq.archive_file@ == spec_last_segment(p.url@)
    &&& rq.url@ == p.url@
    &&& (p.checksum_md5 matches Some(d) ==> rq.checksum == (ChecksumSource::Inline {
        method: ChecksumMethod::Md5,
        digest: d,
    }))
    &&& (p.checksum_md5 is None ==> (p.checksum_sha256 matches Some(d) ==> rq.checksum == (
    ChecksumSource::Inline { method: ChecksumMethod::Sha256, digest: d })))
    &&& ((p.checksum_md5 is None && p.checksum_sha256 is None) ==> (p.checksum_url matches Some(u)
        ==> (rq.checksum matches ChecksumSource::FetchText { url, method, lookup_file } && url == u
        && method == ChecksumMethod::Sha256 && lookup_file == false)))
    &&& ((p.checksum_md5 is None && p.checksum_sha256 is None && p.checksum_url is None)
        ==> rq.checksum is Absent)
    &&& (rq.extract_dir matches ExtractDirSource::Reported { fallback } && fallback@
        == spec_java_fallback_dir(spec_last_segment(p.url@), p.kind))
    &&& rq.link_after == !no_use
}

/// Builds the pipeline request for one selected Java package.
pub fn java_install_request(version: &JavaVersion, package: &JavaPackage, no_use: bool) -> (r:
    InstallRequest)
    ensures
        spec_java_request_ok(r, *version, *package, no_use),
        r@.version_dir == version.vendor.name@ + "-"@ + version.version@,
        r@.archive_file == spec_last_segment(package.url@),
        r@.url == package.url@,
        package.checksum_md5 matches Some(d) ==> r.checksum == (ChecksumSource::Inline {
            method: ChecksumMethod::Md5,
            digest: d,
        }),
        package.checksum_md5 is None ==> (package.checksum_sha256 matches Some(d) ==> r.checksum
            == (ChecksumSource::Inline { method: ChecksumMethod::Sha256, digest: d })),
        (package.checksum_md5 is None && package.checksum_sha256 is None) ==> (
        package.checksum_url matches Some(u) ==> (r.checksum matches ChecksumSource::FetchText {
            url,
            method,
            lookup_file,
        } && url == u && method == ChecksumMethod::Sha256 && lookup_file == false)),
        package.checksum_md5 is None && package.checksum_sha256 is None && package.checksum_url
            is None ==> r.checksum is Absent,
        r.extract_dir matches ExtractDirSource::Reported { fallback } && fallback@
            == spec_java_fallback_dir(spec_last_segment(package.url@), package.kind),
        r@.link_after == !no_use,
{
    let file_name = last_segment(package.url.as_str());
    let checksum = match &package.checksum_md5 {
        Some(d) => ChecksumSource::Inline { method: ChecksumMethod::Md5, digest: d.clone() },
        None => match &package.checksum_sha256 {
            Some(d) => ChecksumSource::Inline {
                method: ChecksumMethod::Sha256,
                digest: d.clone(),
            },
            None => match &package.checksum_url {
                Some(u) => ChecksumSource::FetchText {
                    url: u.clone(),
                    method: ChecksumMethod::Sha256,
                    lookup_file: false,
                },
                None => ChecksumSource::Absent,
            },
        },
    };
    let fallback = java_fallback_dir(file_name.as_str(), package.kind);
    InstallRequest {
        version_dir: version.get_display_name(),
        archive_file: file_name,
        url: package.url.clone(),
        checksum,
        extract_dir: ExtractDirSource::Reported { fallback },
        link_after: !no_use,
    }
}

/// The extraction fallback folder: the file name with its kind extension
/// cut off the end (the separating dot stays, as the convention has it).
pub open spec fn spec_java_fallback_dir(file_name: Seq<char>, kind: PackageKind) -> Seq<char> {
    if kind.spec_to_str().len() <= file_name.len() {
        file_name.take(file_name.len() - kind.spec_to_str().len())
    } else {
        file_name
    }
}

fn java_fallback_dir(file_name: &str, kind: PackageKind) -> (r: String)
    ensures
        r@ == spec_java_fallback_dir(file_name@, kind),
{
    let ext = kind.to_str();
    let el = ext.unicode_len();
    let fl = file_name.unicode_len();
    if el <= fl {
        proof {
            assert(file_name@.subrange(0, fl - el) =~= file_name@.take(file_name@.len() - el));
        }
        file_name.substring_char(0, fl - el).to_owned()
    } else {
        file_name.to_owned()
    }
}

} // verus!
