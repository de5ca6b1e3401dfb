//! The shared shapes of the language executors: the per-command context,
//! the command outcomes, one listing row, and the listing assembly that all
//! languages share.

use vstd::prelude::*;
use crate::resolver::VersionKey;
use crate::strutil::str_eq;
use crate::version::{spec_format_semver, format_semver};

verus! {

/// One supported language, by name.
#[derive(Debug, Clone)]
pub struct SupportedLanguage {
    pub name: &'static str,
}

pub fn go_language() -> (r: SupportedLanguage)
    ensures
        r.name@ == "go"@,
{
    SupportedLanguage { name: "go" }
}

pub fn java_language() -> (r: SupportedLanguage)
    ensures
        r.name@ == "java"@,
{
    SupportedLanguage { name: "java" }
}

pub fn node_language() -> (r: SupportedLanguage)
    ensures
        r.name@ == "node"@,
{
    SupportedLanguage { name: "node" }
}

/// Extra, language-specific command context.
pub trait LanguageContext {

}

/// The context most languages need: whether an install should leave the
/// current-version link alone.
pub struct GeneralLanguageContext {
    pub no_use: bool,
}

impl LanguageContext for GeneralLanguageContext {

}

/// Java's context: the vendor, and whether an install should leave the
/// current-version link alone.
pub struct JavaLanguageContext {
    pub vendor: String,
    pub no_use: bool,
}

impl LanguageContext for JavaLanguageContext {

}

/// What one command runs with.
pub struct ExecutorContext<T: LanguageContext> {
    pub proxy: Option<String>,
    pub language_context: Option<T>,
    pub filter: Option<String>,
    pub arch: String,
    pub os: String,
}

impl<T: LanguageContext> ExecutorContext<T> {
    /// Replaces the language-specific part of the context.
    pub fn merge(&mut self, language_context: Option<T>)
        ensures
            final(self).language_context == language_context,
            final(self).proxy == old(self).proxy,
            final(self).filter == old(self).filter,
            final(self).arch == old(self).arch,
            final(self).os == old(self).os,
    {
        self.language_context = language_context;
    }
}

#[derive(Debug, Clone, PartialEq, Eq, Structural)]
pub enum InstallResult {
    Success,
    SuccessNeedHint,
    VersionInstalled,
}

#[derive(Debug, Clone, PartialEq, Eq, Structural)]
pub enum UseResult {
    Success,
    SuccessNeedHint,
    VersionAlreadyUsed,
}

#[derive(Debug, Clone, PartialEq, Eq, Structural)]
pub enum VenvResult {
    Success,
    VersionAlreadyUsed,
}

/// One row of a listing.
#[derive(Debug, Clone)]
pub struct LanguageVersion {
    pub version: String,
    pub installed: bool,
    pub inuse: bool,
}

// ---------------------------------------------------------------------------
// Listing assembly.
// ---------------------------------------------------------------------------

/// First-match lookup in an installed-versions table of
/// (directory name, currently in use) pairs.
pub open spec fn spec_lookup(m: Seq<(Seq<char>, bool)>, k: Seq<char>) -> Option<bool>
    decreases m.len(),
{
    if m.len() == 0 {
        None
    } else if m[0].0 == k {
        Some(m[0].1)
    } else {
        spec_lookup(m.drop_first(), k)
    }
}

/// The table as the specifications see it.
pub open spec fn spec_installed_view(v: Seq<(String, bool)>) -> Seq<(Seq<char>, bool)> {
    v.map_values(|p: (String, bool)| (p.0@, p.1))
}

pub fn lookup_installed(installed: &Vec<(String, bool)>, k: &str) -> (r: Option<bool>)
    ensures
        r == spec_lookup(spec_installed_view(installed@), k@),
{
    let ghost m = spec_installed_view(installed@);
    let n = installed.len();
    let mut i: usize = 0;
    proof {
        assert(m.skip(0) =~= m);
    }
    while i < n
        invariant
            i <= n,
            n == installed@.len(),
            m == spec_installed_view(installed@),
            spec_lookup(m, k@) == spec_lookup(m.skip(i as int), k@),
        decreases n - i,
    {
        proof {
            assert(m.skip(i as int)[0] == m[i as int]);
            assert(m[i as int] == (installed@[i as int].0@, installed@[i as int].1));
        }
        if str_eq(installed[i].0.as_str(), k) {
            return Some(installed[i].1);
        }
        proof {
            assert(m.skip(i as int).drop_first() =~= m.skip(i + 1));
        }
        i = i + 1;
    }
    proof {
        assert(m.skip(n as int) =~= Seq::<(Seq<char>, bool)>::empty());
    }
    None
}

/// Annotates each record with whether its display name is installed and in
/// use. Callers hand the records already sorted.
pub fn annotate_versions(entries: &Vec<VersionKey>, installed: &Vec<(String, bool)>) -> (r: Vec<
    LanguageVersion,
>)
    ensures
        r@.len() == entries@.len(),
        forall|i: int|
            0 <= i < r@.len() ==> {
                &&& (#[trigger] r@[i]).version@ == entries@[i]@.display
                &&& r@[i].installed == (spec_lookup(
                    spec_installed_view(installed@),
                    entries@[i]@.display,
                ) is Some)
                &&& r@[i].inuse == (spec_lookup(
                    spec_installed_view(installed@),
                    entries@[i]@.display,
                ) == Some(true))
            },
{
    let n = entries.len();
    let mut r: Vec<LanguageVersion> = Vec::new();
    let mut i: usize = 0;
    while i < n
        invariant
            i <= n,
            n == entries@.len(),
            r@.len() == i,
            forall|j: int|
                0 <= j < i ==> {
                    &&& (#[trigger] r@[j]).version@ == entries@[j]@.display
                    &&& r@[j].installed == (spec_lookup(
                        spec_installed_view(installed@),
                        entries@[j]@.display,
                    ) is Some)
                    &&& r@[j].inuse == (spec_lookup(
                        spec_installed_view(installed@),
                        entries@[j]@.display,
                    ) == Some(true))
                },
        decreases n - i,
    {
        let found = lookup_installed(installed, entries[i].display.as_str());
        let inuse = match found {
            Some(true) => true,
            _ => false,
        };
        r.push(
            LanguageVersion {
                version: entries[i].display.clone(),
                installed: found.is_some(),
                inuse,
            },
        );
        i = i + 1;
    }
    r
}

/// Annotates records whose display text may differ from the installed
/// directory's name: the flags are looked up by the canonical rendering of
/// each record's ordering tuple, which is what an install names its
/// directory, while the display text is shown as given.
pub fn annotate_versions_canonical(entries: &Vec<VersionKey>, installed: &Vec<(String, bool)>) -> (r:
    Vec<LanguageVersion>)
    ensures
        r@.len() == entries@.len(),
        forall|i: int|
            0 <= i < r@.len() ==> {
                &&& (#[trigger] r@[i]).version@ == entries@[i]@.display
                &&& r@[i].installed == (spec_lookup(
                    spec_installed_view(installed@),
                    spec_format_semver(entries@[i]@.sem),
                ) is Some)
                &&& r@[i].inuse == (spec_lookup(
                    spec_installed_view(installed@),
                    spec_format_semver(entries@[i]@.sem),
                ) == Some(true))
            },
{
    let n = entries.len();
    let mut r: Vec<LanguageVersion> = Vec::new();
    let mut i: usize = 0;
    while i < n
        invariant
            i <= n,
            n == entries@.len(),
            r@.len() == i,
            forall|j: int|
                0 <= j < i ==> {
                    &&& (#[trigger] r@[j]).version@ == entries@[j]@.display
                    &&& r@[j].installed == (spec_lookup(
                        spec_installed_view(installed@),
                        spec_format_semver(entries@[j]@.sem),
                    ) is Some)
                    &&& r@[j].inuse == (spec_lookup(
                        spec_installed_view(installed@),
                        spec_format_semver(entries@[j]@.sem),
                    ) == Some(true))
                },
        decreases n - i,
    {
        let key = format_semver(&entries[i].sem);
        let found = lookup_installed(installed, key.as_str());
        let inuse = match found {
            Some(true) => true,
            _ => false,
        };
        r.push(
            LanguageVersion {
                version: entries[i].display.clone(),
                installed: found.is_some(),
                inuse,
            },
        );
        i = i + 1;
    }
    r
}

/// Annotates records whose installed-directory names carry a `prefix-`
/// in front of the display name, as the Java versions do.
pub fn annotate_versions_prefixed(
    entries: &Vec<VersionKey>,
    prefix: &str,
    installed: &Vec<(String, bool)>,
) -> (r: Vec<LanguageVersion>)
    ensures
        r@.len() == entries@.len(),
        forall|i: int|
            0 <= i < r@.len() ==> {
                &&& (#[trigger] r@[i]).version@ == entries@[i]@.display
                &&& r@[i].installed == (spec_lookup(
                    spec_installed_view(installed@),
                    prefix@ + "-"@ + entries@[i]@.display,
                ) is Some)
                &&& r@[i].inuse == (spec_lookup(
                    spec_installed_view(installed@),
                    prefix@ + "-"@ + entries@[i]@.display,
                ) == Some(true))
            },
{
    let n = entries.len();
    let mut r: Vec<LanguageVersion> = Vec::new();
    let mut i: usize = 0;
    while i < n
        invariant
            i <= n,
            n == entries@.len(),
            r@.len() == i,
            forall|j: int|
                0 <= j < i ==> {
                    &&& (#[trigger] r@[j]).version@ == entries@[j]@.display
                    &&& r@[j].installed == (spec_lookup(
                        spec_installed_view(installed@),
                        prefix@ + "-"@ + entries@[j]@.display,
                    ) is Some)
                    &&& r@[j].inuse == (spec_lookup(
                        spec_installed_view(installed@),
                        prefix@ + "-"@ + entries@[j]@.display,
                    ) == Some(true))
                },
        decreases n - i,
    {
        let mut key = prefix.to_owned();
        key.append("-");
        key.append(entries[i].display.as_str());
        proof {
            assert(key@ =~= prefix@ + "-"@ + entries@[i as int]@.display);
        }
        let found = lookup_installed(installed, key.as_str());
        let inuse = match found {
            Some(true) => true,
            _ => false,
        };
        r.push(
            LanguageVersion {
                version: entries[i].display.clone(),
                installed: found.is_some(),
                inuse,
            },
        );
        i = i + 1;
    }
    r
}

/// The local-only listing: every installed directory name, marked
/// installed, with its in-use flag.
pub fn list_installed_only(installed: &Vec<(String, bool)>) -> (r: Vec<LanguageVersion>)
    ensures
        r@.len() == installed@.len(),
        forall|i: int|
            0 <= i < r@.len() ==> {
                &&& (#[trigger] r@[i]).version@ == installed@[i].0@
                &&& r@[i].installed == true
                &&& r@[i].inuse == installed@[i].1
            },
{
    let n = installed.len();
    let mut r: Vec<LanguageVersion> = Vec::new();
    let mut i: usize = 0;
    while i < n
        invariant
            i <= n,
            n == installed@.len(),
            r@.len() == i,
            forall|j: int|
                0 <= j < i ==> {
                    &&& (#[trigger] r@[j]).version@ == installed@[j].0@
                    &&& r@[j].installed == true
                    &&& r@[j].inuse == installed@[j].1
                },
        decreases n - i,
    {
        r.push(
            LanguageVersion {
                version: installed[i].0.clone(),
                installed: true,
                inuse: installed[i].1,
            },
        );
        i = i + 1;
    }
    r
}

} // verus!
