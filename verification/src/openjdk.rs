//! The OpenJDK catalog: two scraped pages of download links. Links under
//! the download root become packages; a side table of `.sha256` links
//! supplies each artifact's digest-file URL; packages sharing a version
//! token form one release.

use vstd::prelude::*;
use crate::htmlsel::{
    parse_document, parse_selector, select_in_document, select_in_element, element_attr,
    element_inner_html,
};
use crate::java::{JavaPackage, JavaVersion, PackageKind, last_segment};
use crate::strutil::{
    contains_sub, spec_is_digit, is_digit, starts_with, ends_with, spec_starts_with,
    spec_ends_with, str_eq,
};
use crate::java::{spec_last_segment, spec_kind_of};
use crate::parse::spec_parse_java_semver;
use crate::assoc::{assoc_get, spec_assoc_get};

verus! {

/// A word character: a letter, a digit or an underscore.
pub open spec fn spec_is_wch(c: char) -> bool {
    spec_is_digit(c)
    || (('a' as u32) <= (c as u32) && (c as u32) <= ('z' as u32))
    || (('A' as u32) <= (c as u32) && (c as u32) <= ('Z' as u32))
    || c == '_'
}

fn is_wch(c: char) -> (r: bool)
    ensures
        r == spec_is_wch(c),
{
    is_digit(c)
    || (('a' as u32) <= (c as u32) && (c as u32) <= ('z' as u32))
    || (('A' as u32) <= (c as u32) && (c as u32) <= ('Z' as u32))
    || c == '_'
}

pub open spec fn spec_wch_end(s: Seq<char>, i: int) -> int
    decreases s.len() - i,
{
    if i < 0 || i >= s.len() {
        if i < 0 {
            0
        } else {
            s.len() as int
        }
    } else if !spec_is_wch(s[i]) {
        i
    } else {
        spec_wch_end(s, i + 1)
    }
}

proof fn lemma_wch_end_at(s: Seq<char>, i: int, e: int)
    requires
        0 <= i <= e <= s.len(),
        forall|j: int| i <= j < e ==> spec_is_wch(#[trigger] s[j]),
        e < s.len() ==> !spec_is_wch(s[e]),
    ensures
        spec_wch_end(s, i) == e,
    decreases e - i,
{
    if i < e {
        lemma_wch_end_at(s, i + 1, e);
    }
}

fn scan_wch(s: &str, from: usize) -> (e: usize)
    requires
        from <= s@.len(),
    ensures
        from <= e <= s@.len(),
        e == spec_wch_end(s@, from as int),
{
    let n = s.unicode_len();
    let mut e: usize = from;
    while e < n && is_wch(s.get_char(e))
        invariant
            from <= e <= n,
            n == s@.len(),
            forall|j: int| from <= j < e ==> spec_is_wch(#[trigger] s@[j]),
        decreases n - e,
    {
        e = e + 1;
    }
    proof {
        lemma_wch_end_at(s@, from as int, e as int);
    }
    e
}

/// Neither an underscore nor a dot: the arch part's characters.
pub open spec fn spec_is_arch_ch(c: char) -> bool {
    c != '_' && c != '.'
}

fn is_arch_ch(c: char) -> (r: bool)
    ensures
        r == spec_is_arch_ch(c),
{
    c != '_' && c != '.'
}

pub open spec fn spec_arch_end(s: Seq<char>, i: int) -> int
    decreases s.len() - i,
{
    if i < 0 || i >= s.len() {
        if i < 0 {
            0
        } else {
            s.len() as int
        }
    } else if !spec_is_arch_ch(s[i]) {
        i
    } else {
        spec_arch_end(s, i + 1)
    }
}

proof fn lemma_arch_end_at(s: Seq<char>, i: int, e: int)
    requires
        0 <= i <= e <= s.len(),
        forall|j: int| i <= j < e ==> spec_is_arch_ch(#[trigger] s[j]),
        e < s.len() ==> !spec_is_arch_ch(s[e]),
    ensures
        spec_arch_end(s, i) == e,
    decreases e - i,
{
    if i < e {
        lemma_arch_end_at(s, i + 1, e);
    }
}

fn scan_arch(s: &str, from: usize) -> (e: usize)
    requires
        from <= s@.len(),
    ensures
        from <= e <= s@.len(),
        e == spec_arch_end(s@, from as int),
{
    let n = s.unicode_len();
    let mut e: usize = from;
    while e < n && is_arch_ch(s.get_char(e))
        invariant
            from <= e <= n,
            n == s@.len(),
            forall|j: int| from <= j < e ==> spec_is_arch_ch(#[trigger] s@[j]),
        decreases n - e,
    {
        e = e + 1;
    }
    proof {
        lemma_arch_end_at(s@, from as int, e as int);
    }
    e
}

pub open spec fn spec_is_numdot(c: char) -> bool {
    spec_is_digit(c) || c == '.'
}

fn is_numdot(c: char) -> (r: bool)
    ensures
        r == spec_is_numdot(c),
{
    is_digit(c) || c == '.'
}

pub open spec fn spec_numdot_end(s: Seq<char>, i: int) -> int
    decreases s.len() - i,
{
    if i < 0 || i >= s.len() {
        if i < 0 {
            0
        } else {
            s.len() as int
        }
    } else if !spec_is_numdot(s[i]) {
        i
    } else {
        spec_numdot_end(s, i + 1)
    }
}

proof fn lemma_numdot_end_at(s: Seq<char>, i: int, e: int)
    requires
        0 <= i <= e <= s.len(),
        forall|j: int| i <= j < e ==> spec_is_numdot(#[trigger] s[j]),
        e < s.len() ==> !spec_is_numdot(s[e]),
    ensures
        spec_numdot_end(s, i) == e,
    decreases e - i,
{
    if i < e {
        lemma_numdot_end_at(s, i + 1, e);
    }
}

fn scan_numdot(s: &str, from: usize) -> (e: usize)
    requires
        from <= s@.len(),
    ensures
        from <= e <= s@.len(),
        e == spec_numdot_end(s@, from as int),
{
    let n = s.unicode_len();
    let mut e: usize = from;
    while e < n && is_numdot(s.get_char(e))
        invariant
            from <= e <= n,
            n == s@.len(),
            forall|j: int| from <= j < e ==> spec_is_numdot(#[trigger] s@[j]),
        decreases n - e,
    {
        e = e + 1;
    }
    proof {
        lemma_numdot_end_at(s@, from as int, e as int);
    }
    e
}

/// Last index in `[lo, hi)` holding an underscore, or -1.
pub open spec fn spec_last_usc(s: Seq<char>, lo: int, hi: int) -> int
    decreases hi - lo,
{
    if hi <= lo || hi > s.len() || lo < 0 {
        -1
    } else if s[hi - 1] == '_' {
        hi - 1
    } else {
        spec_last_usc(s, lo, hi - 1)
    }
}

fn scan_last_usc(s: &str, lo: usize, hi: usize) -> (r: Option<usize>)
    requires
        hi <= s@.len(),
    ensures
        (r is Some) == (spec_last_usc(s@, lo as int, hi as int) >= 0),
        r matches Some(u) ==> u as int == spec_last_usc(s@, lo as int, hi as int) && lo <= u < hi,
{
    let mut h = hi;
    while h > lo && s.get_char(h - 1) != '_'
        invariant
            h <= hi <= s@.len(),
            spec_last_usc(s@, lo as int, hi as int) == spec_last_usc(s@, lo as int, h as int),
        decreases h,
    {
        h = h - 1;
    }
    if h <= lo {
        None
    } else {
        Some(h - 1)
    }
}

/// The fields an OpenJDK artifact file name yields, as
/// (version, os, arch, extension). An early-access name carries a
/// `-tag+build` version part whose build section ends at the run's last
/// underscore, as greedy matching has it; a general-availability name a
/// purely dotted one.
pub open spec fn spec_openjdk_file(name: Seq<char>, ea: bool) -> Option<
    (Seq<char>, Seq<char>, Seq<char>, Seq<char>),
> {
    let prefix = "openjdk-"@;
    if !spec_starts_with(name, prefix) {
        None
    } else {
        let p0 = prefix.len() as int;
        let ne = spec_numdot_end(name, p0);
        if ne == p0 {
            None
        } else {
            let ve = if ea {
                if ne < name.len() && name[ne] == '-' && spec_wch_end(name, ne + 1) > ne + 1 {
                    let we = spec_wch_end(name, ne + 1);
                    if we < name.len() && name[we] == '+' {
                        spec_last_usc(name, we + 2, spec_wch_end(name, we + 1))
                    } else {
                        -1
                    }
                } else {
                    -1
                }
            } else {
                ne
            };
            if ve < 0 || !(ve < name.len() && name[ve] == '_') {
                None
            } else {
                let oe = spec_wch_end(name, ve + 1);
                if oe == ve + 1 || !(oe < name.len() && name[oe] == '-') {
                    None
                } else {
                    let ae = spec_arch_end(name, oe + 1);
                    if ae == oe + 1 || ae >= name.len() {
                        None
                    } else {
                        let tail = if name[ae] == '_' {
                            let ue = spec_arch_end_nodot(name, ae + 1);
                            if ue > ae + 1 && ue < name.len() && name[ue] == '.' {
                                ue
                            } else {
                                -1
                            }
                        } else if name[ae] == '.' {
                            ae
                        } else {
                            -1
                        };
                        if tail < 0 {
                            None
                        } else {
                            Some(
                                (
                                    name.subrange(p0, ve),
                                    name.subrange(ve + 1, oe),
                                    name.subrange(oe + 1, ae),
                                    name.skip(tail + 1),
                                ),
                            )
                        }
                    }
                }
            }
        }
    }
}

/// End of the run of non-dot characters that starts at `i`.
pub open spec fn spec_arch_end_nodot(s: Seq<char>, i: int) -> int
    decreases s.len() - i,
{
    if i < 0 || i >= s.len() {
        if i < 0 {
            0
        } else {
            s.len() as int
        }
    } else if s[i] == '.' {
        i
    } else {
        spec_arch_end_nodot(s, i + 1)
    }
}

proof fn lemma_nodot_end_at(s: Seq<char>, i: int, e: int)
    requires
        0 <= i <= e <= s.len(),
        forall|j: int| i <= j < e ==> (#[trigger] s[j]) != '.',
        e < s.len() ==> s[e] == '.',
    ensures
        spec_arch_end_nodot(s, i) == e,
    decreases e - i,
{
    if i < e {
        lemma_nodot_end_at(s, i + 1, e);
    }
}

fn scan_nodot(s: &str, from: usize) -> (e: usize)
    requires
        from <= s@.len(),
    ensures
        from <= e <= s@.len(),
        e == spec_arch_end_nodot(s@, from as int),
{
    let n = s.unicode_len();
    let mut e: usize = from;
    while e < n && s.get_char(e) != '.'
        invariant
            from <= e <= n,
            n == s@.len(),
            forall|j: int| from <= j < e ==> (#[trigger] s@[j]) != '.',
        decreases n - e,
    {
        e = e + 1;
    }
    proof {
        lemma_nodot_end_at(s@, from as int, e as int);
    }
    e
}

/// Reads one artifact file name's fields.
pub fn parse_openjdk_file(name: &str, ea: bool) -> (r: Option<(String, String, String, String)>)
    ensures
        (r is Some) == (spec_openjdk_file(name@, ea) is Some),
        r matches Some(t) ==> spec_openjdk_file(name@, ea) == Some((t.0@, t.1@, t.2@, t.3@)),
{
    let n = name.unicode_len();
    if !starts_with(name, "openjdk-") {
        return None;
    }
    proof {
        reveal_strlit("openjdk-");
        assert("openjdk-"@.len() == 8);
    }
    let p0: usize = 8;
    let ne = scan_numdot(name, p0);
    if ne == p0 {
        return None;
    }
    let ve: usize = if ea {
        if ne < n && name.get_char(ne) == '-' {
            let we = scan_wch(name, ne + 1);
            if we > ne + 1 && we < n && name.get_char(we) == '+' {
                let run_end = scan_wch(name, we + 1);
                if run_end < 2 || we > run_end - 2 {
                    return None;
                }
                match scan_last_usc(name, we + 2, run_end) {
                    Some(u) => u,
                    None => {
                        return None;
                    },
                }
            } else {
                return None;
            }
        } else {
            return None;
        }
    } else {
        ne
    };
    if !(ve < n && name.get_char(ve) == '_') {
        return None;
    }
    let oe = scan_wch(name, ve + 1);
    if oe == ve + 1 || !(oe < n && name.get_char(oe) == '-') {
        return None;
    }
    let ae = scan_arch(name, oe + 1);
    if ae == oe + 1 || ae >= n {
        return None;
    }
    let tail: usize = if name.get_char(ae) == '_' {
        let ue = scan_nodot(name, ae + 1);
        if ue > ae + 1 && ue < n && name.get_char(ue) == '.' {
            ue
        } else {
            return None;
        }
    } else if name.get_char(ae) == '.' {
        ae
    } else {
        return None;
    };
    let version = name.substring_char(p0, ve).to_owned();
    let os = name.substring_char(ve + 1, oe).to_owned();
    let arch = name.substring_char(oe + 1, ae).to_owned();
    let ext = name.substring_char(tail + 1, n).to_owned();
    proof {
        assert(name@.subrange(tail + 1, n as int) =~= name@.skip(tail + 1));
    }
    Some((version, os, arch, ext))
}

// ---------------------------------------------------------------------------
// Link lists and releases.
// ---------------------------------------------------------------------------

/// The digest-file key one link yields: for a `.sha256` link under the
/// download root, its file name with that suffix cut off.
pub open spec fn spec_sha_key(href: Seq<char>) -> Option<Seq<char>> {
    if spec_starts_with(href, "https://download.java.net/java"@) && spec_ends_with(
        href,
        ".sha256"@,
    ) && spec_last_segment(href).len() >= 7 {
        Some(spec_last_segment(href).take(spec_last_segment(href).len() - 7))
    } else {
        None
    }
}

/// The digest-file URL for an artifact file name: the last `.sha256` link
/// keyed by that name.
pub open spec fn spec_checksum_lookup(hrefs: Seq<Seq<char>>, file: Seq<char>) -> Option<Seq<char>>
    decreases hrefs.len(),
{
    if hrefs.len() == 0 {
        None
    } else {
        match spec_sha_key(hrefs.last()) {
            Some(k) => if k == file {
                Some(hrefs.last())
            } else {
                spec_checksum_lookup(hrefs.drop_last(), file)
            },
            None => spec_checksum_lookup(hrefs.drop_last(), file),
        }
    }
}

/// The package fields one link yields, as
/// (version, url, os, arch, kind, digest-file URL): a non-digest link
/// under the download root whose file name parses to an installable kind.
pub open spec fn spec_openjdk_link_row(href: Seq<char>, ea: bool, all: Seq<Seq<char>>) -> Option<
    (Seq<char>, Seq<char>, Seq<char>, Seq<char>, PackageKind, Option<Seq<char>>),
> {
    if !spec_starts_with(href, "https://download.java.net/java"@) || spec_ends_with(
        href,
        ".sha256"@,
    ) {
        None
    } else {
        match spec_openjdk_file(spec_last_segment(href), ea) {
            Some(f) => {
                let kind = spec_kind_of(f.3);
                if kind == PackageKind::Unknown {
                    None
                } else {
                    Some(
                        (
                            f.0,
                            href,
                            f.1,
                            f.2,
                            kind,
                            spec_checksum_lookup(all, spec_last_segment(href)),
                        ),
                    )
                }
            },
            None => None,
        }
    }
}

/// The package rows a link list yields, in link order.
pub open spec fn spec_openjdk_rows(hrefs: Seq<Seq<char>>, ea: bool, all: Seq<Seq<char>>) -> Seq<
    (Seq<char>, Seq<char>, Seq<char>, Seq<char>, PackageKind, Option<Seq<char>>),
>
    decreases hrefs.len(),
{
    if hrefs.len() == 0 {
        Seq::empty()
    } else {
        let rest = spec_openjdk_rows(hrefs.drop_first(), ea, all);
        match spec_openjdk_link_row(hrefs[0], ea, all) {
            Some(row) => seq![row] + rest,
            None => rest,
        }
    }
}

proof fn lemma_openjdk_rows_push(hrefs: Seq<Seq<char>>, e: Seq<char>, ea: bool, all: Seq<Seq<char>>)
    ensures
        spec_openjdk_rows(hrefs.push(e), ea, all) == spec_openjdk_rows(hrefs, ea, all)
            + spec_openjdk_rows(seq![e], ea, all),
    decreases hrefs.len(),
{
    if hrefs.len() == 0 {
        assert(hrefs.push(e)[0] == e);
        assert(hrefs.push(e).drop_first() =~= Seq::<Seq<char>>::empty());
        assert(seq![e][0] == e);
        assert(seq![e].drop_first() =~= Seq::<Seq<char>>::empty());
        assert(spec_openjdk_rows(hrefs, ea, all) + spec_openjdk_rows(seq![e], ea, all)
            =~= spec_openjdk_rows(seq![e], ea, all));
    } else {
        assert(hrefs.push(e)[0] == hrefs[0]);
        assert(hrefs.push(e).drop_first() =~= hrefs.drop_first().push(e));
        lemma_openjdk_rows_push(hrefs.drop_first(), e, ea, all);
        match spec_openjdk_link_row(hrefs[0], ea, all) {
            Some(row) => {
                assert(seq![row] + (spec_openjdk_rows(hrefs.drop_first(), ea, all)
                    + spec_openjdk_rows(seq![e], ea, all)) =~= (seq![row] + spec_openjdk_rows(
                    hrefs.drop_first(),
                    ea,
                    all,
                )) + spec_openjdk_rows(seq![e], ea, all));
            },
            None => {
            },
        }
    }
}

/// A built package carries exactly one link row's fields.
pub open spec fn spec_pkg_of_link_row(
    p: JavaPackage,
    row: (Seq<char>, Seq<char>, Seq<char>, Seq<char>, PackageKind, Option<Seq<char>>),
) -> bool {
    &&& p.version@ == row.0
    &&& p.url@ == row.1
    &&& p.os@ == row.2
    &&& p.arch@ == row.3
    &&& p.kind == row.4
    &&& ((p.checksum_url is Some) == (row.5 is Some))
    &&& (p.checksum_url matches Some(u) ==> row.5 == Some(u@))
    &&& p.checksum_md5 is None
    &&& p.checksum_sha256 is None
}

/// The distinct version tokens of the rows, in first-seen order.
pub open spec fn spec_row_keys(
    rows: Seq<(Seq<char>, Seq<char>, Seq<char>, Seq<char>, PackageKind, Option<Seq<char>>)>,
) -> Seq<Seq<char>>
    decreases rows.len(),
{
    if rows.len() == 0 {
        Seq::empty()
    } else {
        let prev = spec_row_keys(rows.drop_last());
        if prev.contains(rows.last().0) {
            prev
        } else {
            prev.push(rows.last().0)
        }
    }
}

/// The rows carrying one version token, in row order.
pub open spec fn spec_rows_with(
    rows: Seq<(Seq<char>, Seq<char>, Seq<char>, Seq<char>, PackageKind, Option<Seq<char>>)>,
    k: Seq<char>,
) -> Seq<(Seq<char>, Seq<char>, Seq<char>, Seq<char>, PackageKind, Option<Seq<char>>)>
    decreases rows.len(),
{
    if rows.len() == 0 {
        Seq::empty()
    } else {
        (if rows[0].0 == k {
            seq![rows[0]]
        } else {
            Seq::empty()
        }) + spec_rows_with(rows.drop_first(), k)
    }
}

proof fn lemma_rows_with_push(
    rows: Seq<(Seq<char>, Seq<char>, Seq<char>, Seq<char>, PackageKind, Option<Seq<char>>)>,
    e: (Seq<char>, Seq<char>, Seq<char>, Seq<char>, PackageKind, Option<Seq<char>>),
    k: Seq<char>,
)
    ensures
        spec_rows_with(rows.push(e), k) == spec_rows_with(rows, k) + (if e.0 == k {
            seq![e]
        } else {
            Seq::empty()
        }),
    decreases rows.len(),
{
    if rows.len() == 0 {
        assert(rows.push(e)[0] == e);
        assert(rows.push(e).drop_first() =~= Seq::<
            (Seq<char>, Seq<char>, Seq<char>, Seq<char>, PackageKind, Option<Seq<char>>),
        >::empty());
        assert(spec_rows_with(
            Seq::<(Seq<char>, Seq<char>, Seq<char>, Seq<char>, PackageKind, Option<Seq<char>>)>::empty(),
            k,
        ) =~= Seq::<
            (Seq<char>, Seq<char>, Seq<char>, Seq<char>, PackageKind, Option<Seq<char>>),
        >::empty());
        assert(spec_rows_with(rows.push(e), k) =~= spec_rows_with(rows, k) + (if e.0 == k {
            seq![e]
        } else {
            Seq::<(Seq<char>, Seq<char>, Seq<char>, Seq<char>, PackageKind, Option<Seq<char>>)>::empty()
        }));
    } else {
        assert(rows.push(e)[0] == rows[0]);
        assert(rows.push(e).drop_first() =~= rows.drop_first().push(e));
        lemma_rows_with_push(rows.drop_first(), e, k);
        assert(spec_rows_with(rows.push(e), k) =~= spec_rows_with(rows, k) + (if e.0 == k {
            seq![e]
        } else {
            Seq::<(Seq<char>, Seq<char>, Seq<char>, Seq<char>, PackageKind, Option<Seq<char>>)>::empty()
        }));
    }
}

/// Every row of a token's group carries that token.
proof fn lemma_rows_with_version(
    rows: Seq<(Seq<char>, Seq<char>, Seq<char>, Seq<char>, PackageKind, Option<Seq<char>>)>,
    k: Seq<char>,
)
    ensures
        forall|j: int|
            0 <= j < spec_rows_with(rows, k).len() ==> (#[trigger] spec_rows_with(rows, k)[j]).0
                == k,
    decreases rows.len(),
{
    if rows.len() > 0 {
        lemma_rows_with_version(rows.drop_first(), k);
        assert forall|j: int|
            0 <= j < spec_rows_with(rows, k).len() implies (#[trigger] spec_rows_with(rows, k)[j]).0
            == k by {
            if rows[0].0 == k {
                if j > 0 {
                    assert(spec_rows_with(rows, k)[j] == spec_rows_with(rows.drop_first(), k)[j
                        - 1]);
                }
            } else {
                assert(spec_rows_with(rows, k)[j] == spec_rows_with(rows.drop_first(), k)[j]);
            }
        }
    }
}

/// The keys that become releases: those with at least one row and whose
/// token the grammar accepts, in first-seen order.
pub open spec fn spec_release_keys(
    keys: Seq<Seq<char>>,
    rows: Seq<(Seq<char>, Seq<char>, Seq<char>, Seq<char>, PackageKind, Option<Seq<char>>)>,
) -> Seq<Seq<char>>
    decreases keys.len(),
{
    if keys.len() == 0 {
        Seq::empty()
    } else {
        let rest = spec_release_keys(keys.drop_first(), rows);
        if spec_rows_with(rows, keys[0]).len() > 0 && spec_parse_java_semver(keys[0]) is Some {
            seq![keys[0]] + rest
        } else {
            rest
        }
    }
}

proof fn lemma_release_keys_push(
    keys: Seq<Seq<char>>,
    e: Seq<char>,
    rows: Seq<(Seq<char>, Seq<char>, Seq<char>, Seq<char>, PackageKind, Option<Seq<char>>)>,
)
    ensures
        spec_release_keys(keys.push(e), rows) == spec_release_keys(keys, rows)
            + spec_release_keys(seq![e], rows),
    decreases keys.len(),
{
    if keys.len() == 0 {
        assert(keys.push(e)[0] == e);
        assert(keys.push(e).drop_first() =~= Seq::<Seq<char>>::empty());
        assert(seq![e][0] == e);
        assert(seq![e].drop_first() =~= Seq::<Seq<char>>::empty());
        assert(spec_release_keys(keys, rows) + spec_release_keys(seq![e], rows)
            =~= spec_release_keys(seq![e], rows));
    } else {
        assert(keys.push(e)[0] == keys[0]);
        assert(keys.push(e).drop_first() =~= keys.drop_first().push(e));
        lemma_release_keys_push(keys.drop_first(), e, rows);
        if spec_rows_with(rows, keys[0]).len() > 0 && spec_parse_java_semver(keys[0]) is Some {
            assert(seq![keys[0]] + (spec_release_keys(keys.drop_first(), rows)
                + spec_release_keys(seq![e], rows)) =~= (seq![keys[0]] + spec_release_keys(
                keys.drop_first(),
                rows,
            )) + spec_release_keys(seq![e], rows));
        }
    }
}

/// The side table's answer, as text.
pub open spec fn spec_table_lookup(m: Seq<(String, String)>, f: Seq<char>) -> Option<Seq<char>> {
    match spec_assoc_get(m, f) {
        Some(u) => Some(u@),
        None => None,
    }
}

/// Builds releases from a page's download links: `.sha256` links under the
/// download root key each artifact's digest-file URL (the last such link
/// counts), the other links under the root whose file names parse to an
/// installable kind become package rows, and the rows sharing a version
/// token form one release per grammar-accepted token, in first-seen order.
#[verifier::rlimit(100)]
pub fn openjdk_versions_from_links(hrefs: &Vec<String>, ea: bool) -> (r: Vec<JavaVersion>)
    ensures
        r@.len() == spec_release_keys(
            spec_row_keys(spec_openjdk_rows(hrefs.deep_view(), ea, hrefs.deep_view())),
            spec_openjdk_rows(hrefs.deep_view(), ea, hrefs.deep_view()),
        ).len(),
        forall|i: int|
            0 <= i < r@.len() ==> {
                let rows = spec_openjdk_rows(hrefs.deep_view(), ea, hrefs.deep_view());
                let rel = spec_release_keys(spec_row_keys(rows), rows);
                &&& (#[trigger] r@[i]).vendor.name@ == "openjdk"@
                &&& r@[i].version@ == rel[i]
                &&& Some(r@[i].sem_version@) == spec_parse_java_semver(rel[i])
                &&& r@[i].packages@.len() == spec_rows_with(rows, rel[i]).len()
                &&& forall|j: int|
                    0 <= j < r@[i].packages@.len() ==> spec_pkg_of_link_row(
                        #[trigger] r@[i].packages@[j],
                        spec_rows_with(rows, rel[i])[j],
                    )
            },
{
    let ghost hv = hrefs.deep_view();
    let nh = hrefs.len();
    // the digest-file side table, last link winning
    let mut checksum_urls: Vec<(String, String)> = Vec::new();
    let mut i: usize = 0;
    proof {
        assert(hv.take(0) =~= Seq::<Seq<char>>::empty());
        assert(forall|f: Seq<char>|
            #[trigger] spec_table_lookup(checksum_urls@, f) is None && spec_checksum_lookup(
                hv.take(0),
                f,
            ) is None);
    }
    while i < nh
        invariant
            i <= nh,
            nh == hv.len(),
            hv == hrefs.deep_view(),
            forall|f: Seq<char>|
                #[trigger] spec_table_lookup(checksum_urls@, f) == spec_checksum_lookup(
                    hv.take(i as int),
                    f,
                ),
        decreases nh - i,
    {
        let href = hrefs[i].as_str();
        proof {
            assert(hv[i as int] == hrefs@[i as int]@);
        }
        let ghost old_cs = checksum_urls@;
        if starts_with(href, "https://download.java.net/java") && ends_with(href, ".sha256") {
            let file = last_segment(href);
            let fl = file.as_str().unicode_len();
            if fl >= 7 {
                let key = file.as_str().substring_char(0, fl - 7).to_owned();
                proof {
                    assert(key@ =~= spec_last_segment(hv[i as int]).take(
                        spec_last_segment(hv[i as int]).len() - 7,
                    ));
                    assert(spec_sha_key(hv[i as int]) is Some);
                    assert(key@ == spec_sha_key(hv[i as int])->0);
                }
                let url_copy = href.to_owned();
                proof {
                    assert(url_copy@ == hv[i as int]);
                }
                checksum_urls.insert(0, (key, url_copy));
                proof {
                    assert(checksum_urls@ == old_cs.insert(0, checksum_urls@[0]));
                    assert(checksum_urls@[0].0@ == spec_sha_key(hv[i as int])->0);
                    assert(checksum_urls@[0].1@ == hv[i as int]);
                    assert(checksum_urls@.drop_first() =~= old_cs);
                }
            } else {
                proof {
                    assert(spec_sha_key(hv[i as int]) is None);
                }
            }
        } else {
            proof {
                assert(spec_sha_key(hv[i as int]) is None);
            }
        }
        proof {
            assert forall|f: Seq<char>| #[trigger] spec_table_lookup(checksum_urls@, f)
                == spec_checksum_lookup(hv.take(i + 1), f) by {
                assert(hv.take(i + 1).last() == hv[i as int]);
                assert(hv.take(i + 1).drop_last() =~= hv.take(i as int));
                assert(spec_table_lookup(old_cs, f) == spec_checksum_lookup(hv.take(i as int), f));
            }
        }
        i = i + 1;
    }
    proof {
        assert(hv.take(nh as int) =~= hv);
    }
    // the package rows
    let ghost rows = spec_openjdk_rows(hv, ea, hv);
    let mut packages: Vec<JavaPackage> = Vec::new();
    let mut i2: usize = 0;
    proof {
        assert(spec_openjdk_rows(hv.take(0), ea, hv) =~= Seq::<
            (Seq<char>, Seq<char>, Seq<char>, Seq<char>, PackageKind, Option<Seq<char>>),
        >::empty());
    }
    while i2 < nh
        invariant
            i2 <= nh,
            nh == hv.len(),
            hv == hrefs.deep_view(),
            forall|f: Seq<char>|
                #[trigger] spec_table_lookup(checksum_urls@, f) == spec_checksum_lookup(hv, f),
            packages@.len() == spec_openjdk_rows(hv.take(i2 as int), ea, hv).len(),
            forall|j: int|
                0 <= j < packages@.len() ==> spec_pkg_of_link_row(
                    #[trigger] packages@[j],
                    spec_openjdk_rows(hv.take(i2 as int), ea, hv)[j],
                ),
        decreases nh - i2,
    {
        let href = hrefs[i2].as_str();
        let ghost old_ps = packages@;
        proof {
            assert(hv[i2 as int] == hrefs@[i2 as int]@);
            assert(hv.take(i2 + 1) =~= hv.take(i2 as int).push(hv[i2 as int]));
            lemma_openjdk_rows_push(hv.take(i2 as int), hv[i2 as int], ea, hv);
            assert(seq![hv[i2 as int]][0] == hv[i2 as int]);
            assert(seq![hv[i2 as int]].drop_first() =~= Seq::<Seq<char>>::empty());
            assert(spec_openjdk_rows(Seq::<Seq<char>>::empty(), ea, hv) =~= Seq::<
                (Seq<char>, Seq<char>, Seq<char>, Seq<char>, PackageKind, Option<Seq<char>>),
            >::empty());
        }
        if starts_with(href, "https://download.java.net/java") && !ends_with(href, ".sha256") {
            let file = last_segment(href);
            match parse_openjdk_file(file.as_str(), ea) {
                Some((version, os, arch, ext)) => {
                    let kind = PackageKind::from_str(ext.as_str());
                    if !matches!(kind, PackageKind::Unknown) {
                        proof {
                            assert(spec_table_lookup(checksum_urls@, file@) == spec_checksum_lookup(
                                hv,
                                file@,
                            ));
                        }
                        let checksum_url = match assoc_get(&checksum_urls, file.as_str()) {
                            Some(u) => Some(u.clone()),
                            None => None,
                        };
                        packages.push(
                            JavaPackage {
                                version,
                                url: href.to_owned(),
                                os,
                                arch,
                                kind,
                                checksum_url,
                                checksum_md5: None,
                                checksum_sha256: None,
                            },
                        );
                        proof {
                            assert(file@ == spec_last_segment(hv[i2 as int]));
                            assert(spec_openjdk_file(spec_last_segment(hv[i2 as int]), ea)
                                is Some);
                            assert(spec_openjdk_link_row(hv[i2 as int], ea, hv) is Some);
                            let ghost row = spec_openjdk_link_row(hv[i2 as int], ea, hv)->0;
                            assert(row.5 == spec_checksum_lookup(hv, file@));
                            assert(packages@[packages@.len() - 1].version@ == row.0);
                            assert(packages@[packages@.len() - 1].url@ == row.1);
                            assert(packages@[packages@.len() - 1].kind == row.4);
                            assert(spec_pkg_of_link_row(packages@[packages@.len() - 1], row));
                        }
                    }
                },
                None => {
                },
            }
        }
        proof {
            assert forall|j: int| 0 <= j < packages@.len() implies spec_pkg_of_link_row(
                #[trigger] packages@[j],
                spec_openjdk_rows(hv.take(i2 + 1), ea, hv)[j],
            ) by {
                if j < old_ps.len() {
                    assert(packages@[j] == old_ps[j]);
                }
            }
        }
        i2 = i2 + 1;
    }
    proof {
        assert(hv.take(nh as int) =~= hv);
    }
    // the distinct version tokens, in first-seen order
    let np = packages.len();
    let mut keys: Vec<String> = Vec::new();
    let mut k: usize = 0;
    proof {
        assert(rows.take(0) =~= Seq::<
            (Seq<char>, Seq<char>, Seq<char>, Seq<char>, PackageKind, Option<Seq<char>>),
        >::empty());
        assert(keys.deep_view() =~= spec_row_keys(rows.take(0)));
    }
    while k < np
        invariant
            k <= np,
            np == packages@.len(),
            np == rows.len(),
            forall|j: int|
                0 <= j < packages@.len() ==> spec_pkg_of_link_row(#[trigger] packages@[j], rows[j]),
            keys.deep_view() == spec_row_keys(rows.take(k as int)),
        decreases np - k,
    {
        let v = packages[k].version.clone();
        proof {
            assert(v@ == rows[k as int].0);
        }
        let mut seen = false;
        let nk0 = keys.len();
        let mut a: usize = 0;
        while a < nk0
            invariant
                a <= nk0,
                nk0 == keys@.len(),
                seen == exists|b: int| 0 <= b < a && (#[trigger] keys@[b])@ == v@,
            decreases nk0 - a,
        {
            if str_eq(keys[a].as_str(), v.as_str()) {
                seen = true;
            }
            a = a + 1;
        }
        let ghost old_keys = keys.deep_view();
        proof {
            assert(rows.take(k + 1).drop_last() =~= rows.take(k as int));
            assert(rows.take(k + 1).last() == rows[k as int]);
            if seen {
                let b = choose|b: int| 0 <= b < keys@.len() && (#[trigger] keys@[b])@ == v@;
                assert(old_keys[b] == keys@[b]@);
                assert(old_keys.contains(rows[k as int].0));
            } else {
                assert forall|b: int| 0 <= b < old_keys.len() implies (#[trigger] old_keys[b])
                    != rows[k as int].0 by {
                    assert(old_keys[b] == keys@[b]@);
                }
            }
        }
        if !seen {
            keys.push(v);
            proof {
                assert(keys.deep_view() =~= old_keys.push(rows[k as int].0));
            }
        }
        k = k + 1;
    }
    proof {
        assert(rows.take(np as int) =~= rows);
    }
    // one release per accepted token
    let mut out: Vec<JavaVersion> = Vec::new();
    let nk = keys.len();
    let ghost kv = keys.deep_view();
    let mut g: usize = 0;
    proof {
        assert(kv.take(0) =~= Seq::<Seq<char>>::empty());
        assert(spec_release_keys(kv.take(0), rows) =~= Seq::<Seq<char>>::empty());
    }
    while g < nk
        invariant
            g <= nk,
            nk == kv.len(),
            kv == keys.deep_view(),
            np == packages@.len(),
            np == rows.len(),
            forall|j: int|
                0 <= j < packages@.len() ==> spec_pkg_of_link_row(#[trigger] packages@[j], rows[j]),
            out@.len() == spec_release_keys(kv.take(g as int), rows).len(),
            forall|i: int|
                0 <= i < out@.len() ==> {
                    &&& (#[trigger] out@[i]).vendor.name@ == "openjdk"@
                    &&& out@[i].version@ == spec_release_keys(kv.take(g as int), rows)[i]
                    &&& Some(out@[i].sem_version@) == spec_parse_java_semver(
                        spec_release_keys(kv.take(g as int), rows)[i],
                    )
                    &&& out@[i].packages@.len() == spec_rows_with(
                        rows,
                        spec_release_keys(kv.take(g as int), rows)[i],
                    ).len()
                    &&& forall|j: int|
                        0 <= j < out@[i].packages@.len() ==> spec_pkg_of_link_row(
                            #[trigger] out@[i].packages@[j],
                            spec_rows_with(rows, spec_release_keys(kv.take(g as int), rows)[i])[j],
                        )
                },
        decreases nk - g,
    {
        let key = keys[g].clone();
        proof {
            assert(key@ == kv[g as int]);
            assert(kv.take(g + 1) =~= kv.take(g as int).push(kv[g as int]));
            lemma_release_keys_push(kv.take(g as int), kv[g as int], rows);
            assert(seq![kv[g as int]][0] == kv[g as int]);
            assert(seq![kv[g as int]].drop_first() =~= Seq::<Seq<char>>::empty());
            assert(spec_release_keys(Seq::<Seq<char>>::empty(), rows) =~= Seq::<Seq<char>>::empty());
        }
        let mut group: Vec<JavaPackage> = Vec::new();
        let mut p: usize = 0;
        proof {
            assert(rows.take(0) =~= Seq::<
                (Seq<char>, Seq<char>, Seq<char>, Seq<char>, PackageKind, Option<Seq<char>>),
            >::empty());
            assert(spec_rows_with(rows.take(0), kv[g as int]).len() == 0);
        }
        while p < np
            invariant
                p <= np,
                np == packages@.len(),
                np == rows.len(),
                forall|j: int|
                    0 <= j < packages@.len() ==> spec_pkg_of_link_row(
                        #[trigger] packages@[j],
                        rows[j],
                    ),
                key@ == kv[g as int],
                group@.len() == spec_rows_with(rows.take(p as int), kv[g as int]).len(),
                forall|j: int|
                    0 <= j < group@.len() ==> spec_pkg_of_link_row(
                        #[trigger] group@[j],
                        spec_rows_with(rows.take(p as int), kv[g as int])[j],
                    ),
            decreases np - p,
        {
            let ghost old_g = group@;
            proof {
                assert(rows.take(p + 1) =~= rows.take(p as int).push(rows[p as int]));
                lemma_rows_with_push(rows.take(p as int), rows[p as int], kv[g as int]);
            }
            if str_eq(packages[p].version.as_str(), key.as_str()) {
                group.push(packages[p].duplicate());
            }
            proof {
                assert forall|j: int| 0 <= j < group@.len() implies spec_pkg_of_link_row(
                    #[trigger] group@[j],
                    spec_rows_with(rows.take(p + 1), kv[g as int])[j],
                ) by {
                    if j < old_g.len() {
                        assert(group@[j] == old_g[j]);
                    } else {
                        assert(crate::java::spec_java_pkg_like(group@[j], packages@[p as int]));
                    }
                }
            }
            p = p + 1;
        }
        proof {
            assert(rows.take(np as int) =~= rows);
        }
        let ghost old_out = out@;
        if group.len() > 0 {
            proof {
                lemma_rows_with_version(rows, kv[g as int]);
                assert(group@[0].version@ == spec_rows_with(rows, kv[g as int])[0].0);
            }
            match JavaVersion::from_openjdk(group) {
                Some(v) => {
                    proof {
                        reveal_strlit("openjdk");
                    }
                    out.push(v);
                },
                None => {
                },
            }
        }
        proof {
            assert forall|i: int| 0 <= i < out@.len() implies {
                &&& (#[trigger] out@[i]).vendor.name@ == "openjdk"@
                &&& out@[i].version@ == spec_release_keys(kv.take(g + 1), rows)[i]
                &&& Some(out@[i].sem_version@) == spec_parse_java_semver(
                    spec_release_keys(kv.take(g + 1), rows)[i],
                )
                &&& out@[i].packages@.len() == spec_rows_with(
                    rows,
                    spec_release_keys(kv.take(g + 1), rows)[i],
                ).len()
                &&& forall|j: int|
                    0 <= j < out@[i].packages@.len() ==> spec_pkg_of_link_row(
                        #[trigger] out@[i].packages@[j],
                        spec_rows_with(rows, spec_release_keys(kv.take(g + 1), rows)[i])[j],
                    )
            } by {
                if i < old_out.len() {
                    assert(out@[i] == old_out[i]);
                }
            }
        }
        g = g + 1;
    }
    proof {
        assert(kv.take(nk as int) =~= kv);
        assert(kv == spec_row_keys(rows));
    }
    out
}

/// Reads a page's matching link targets, in document order.
fn page_links(html: &str, selector: &str) -> Vec<String> {
    let mut out: Vec<String> = Vec::new();
    let sel = match parse_selector(selector) {
        Some(s) => s,
        None => {
            return out;
        },
    };
    let doc = parse_document(html);
    let links = select_in_document(&doc, &sel);
    let nl = links.len();
    let mut i: usize = 0;
    while i < nl
        invariant
            i <= nl,
            nl == links@.len(),
        decreases nl - i,
    {
        match element_attr(&links[i], "href") {
            Some(h) => {
                out.push(h);
            },
            None => {
            },
        }
        i = i + 1;
    }
    out
}

/// Parses the archive page into releases.
pub fn parse_openjdk_archive_page(html: &str) -> (r: Vec<JavaVersion>)
    ensures
        forall|i: int|
            0 <= i < r@.len() ==> (#[trigger] r@[i]).vendor.name@ == "openjdk"@,
{
    let hrefs = page_links(html, "#downloads > table[summary^=\"Downloads\"] tr a");
    openjdk_versions_from_links(&hrefs, false)
}

/// Parses one early-access build page into releases.
pub fn parse_openjdk_ea_page(html: &str) -> (r: Vec<JavaVersion>)
    ensures
        forall|i: int|
            0 <= i < r@.len() ==> (#[trigger] r@[i]).vendor.name@ == "openjdk"@,
{
    let hrefs = page_links(html, "blockquote > table[summary^=\"builds\"] tr a");
    openjdk_versions_from_links(&hrefs, true)
}

/// Reads the early-access page links off the project's home page: links
/// inside headings that speak of early access, whose text names the JDK;
/// a path-only link is rooted at the project site.
pub fn parse_openjdk_home_links(html: &str) -> Vec<String> {
    let mut out: Vec<String> = Vec::new();
    let h1_sel = match parse_selector("h1") {
        Some(s) => s,
        None => {
            return out;
        },
    };
    let a_sel = match parse_selector("a") {
        Some(s) => s,
        None => {
            return out;
        },
    };
    let doc = parse_document(html);
    let heads = select_in_document(&doc, &h1_sel);
    let nh = heads.len();
    let mut i: usize = 0;
    while i < nh
        invariant
            i <= nh,
            nh == heads@.len(),
        decreases nh - i,
    {
        let head = &heads[i];
        i = i + 1;
        let text = element_inner_html(head);
        if !contains_sub(text.as_str(), "Early access") {
            continue;
        }
        let links = select_in_element(head, &a_sel);
        let nl = links.len();
        let mut j: usize = 0;
        while j < nl
            invariant
                j <= nl,
                nl == links@.len(),
            decreases nl - j,
        {
            let a = &links[j];
            j = j + 1;
            if !contains_sub(element_inner_html(a).as_str(), "JDK") {
                continue;
            }
            let href = match element_attr(a, "href") {
                Some(h) => h,
                None => {
                    continue;
                },
            };
            if starts_with(href.as_str(), "/") {
                let mut u = String::new();
                u.append("https://jdk.java.net");
                u.append(href.as_str());
                out.push(u);
            } else {
                out.push(href);
            }
        }
    }
    out
}

} // verus!
