//! Source-specific version-string grammars. Each catalog publishes version
//! text in its own shape; these parsers reduce every shape to the one
//! `SemVer` ordering tuple, totally: text that does not fit a grammar yields
//! `None` and the record is dropped, never a panic.

use vstd::prelude::*;
use crate::strutil::{
    spec_is_digit, spec_num_val, spec_split, is_digit, is_ident_char, parse_u64, split_char,
    spec_is_ident_char,
};
use crate::version::{SemVer, SemVerView, spec_is_num_ident};

verus! {

// ---------------------------------------------------------------------------
// Scanning helpers.
// ---------------------------------------------------------------------------

/// Index of the first decimal digit in `s`, or -1 when there is none.
pub open spec fn spec_first_digit(s: Seq<char>) -> int
    decreases s.len(),
{
    if s.len() == 0 {
        -1
    } else if spec_is_digit(s[0]) {
        0
    } else {
        let r = spec_first_digit(s.drop_first());
        if r < 0 {
            -1
        } else {
            r + 1
        }
    }
}

pub proof fn lemma_first_digit_at(s: Seq<char>, k: int)
    requires
        0 <= k < s.len(),
        spec_is_digit(s[k]),
        forall|j: int| 0 <= j < k ==> !spec_is_digit(#[trigger] s[j]),
    ensures
        spec_first_digit(s) == k,
    decreases s.len(),
{
    if k > 0 {
        let t = s.drop_first();
        assert forall|j: int| 0 <= j < k - 1 implies !spec_is_digit(#[trigger] t[j]) by {
            assert(t[j] == s[j + 1]);
        }
        assert(t[k - 1] == s[k]);
        lemma_first_digit_at(t, k - 1);
    }
}

pub proof fn lemma_first_digit_none(s: Seq<char>)
    requires
        forall|j: int| 0 <= j < s.len() ==> !spec_is_digit(#[trigger] s[j]),
    ensures
        spec_first_digit(s) < 0,
    decreases s.len(),
{
    if s.len() > 0 {
        let t = s.drop_first();
        assert forall|j: int| 0 <= j < t.len() implies !spec_is_digit(#[trigger] t[j]) by {
            assert(t[j] == s[j + 1]);
        }
        lemma_first_digit_none(t);
    }
}

/// End of the run of digits that starts at `i`.
pub open spec fn spec_digits_end(s: Seq<char>, i: int) -> int
    decreases s.len() - i,
{
    if i < 0 || i >= s.len() {
        if i < 0 {
            0
        } else {
            s.len() as int
        }
    } else if !spec_is_digit(s[i]) {
        i
    } else {
        spec_digits_end(s, i + 1)
    }
}

proof fn lemma_digits_end_at(s: Seq<char>, i: int, e: int)
    requires
        0 <= i <= e <= s.len(),
        forall|j: int| i <= j < e ==> spec_is_digit(#[trigger] s[j]),
        e < s.len() ==> !spec_is_digit(s[e]),
    ensures
        spec_digits_end(s, i) == e,
    decreases e - i,
{
    if i < e {
        lemma_digits_end_at(s, i + 1, e);
    }
}

// ---------------------------------------------------------------------------
// Prerelease and build-metadata validity.
// ---------------------------------------------------------------------------

/// One valid prerelease segment: non-empty, alphanumerics and hyphens only,
/// and a multi-digit numeric segment may not start with a zero.
pub open spec fn spec_valid_pre_seg(t: Seq<char>) -> bool {
    &&& t.len() > 0
    &&& forall|j: int| 0 <= j < t.len() ==> spec_is_ident_char(#[trigger] t[j])
    &&& (spec_is_num_ident(t) && t.len() > 1 ==> t[0] != '0')
}

pub open spec fn spec_all_segs_valid_pre(segs: Seq<Seq<char>>) -> bool {
    forall|k: int| 0 <= k < segs.len() ==> spec_valid_pre_seg(#[trigger] segs[k])
}

/// A valid prerelease tag: empty, or dot-separated valid segments.
pub open spec fn spec_valid_pre(s: Seq<char>) -> bool {
    s.len() == 0 || spec_all_segs_valid_pre(spec_split(s, '.'))
}

/// One valid build-metadata segment: non-empty, alphanumerics and hyphens.
pub open spec fn spec_valid_build_seg(t: Seq<char>) -> bool {
    &&& t.len() > 0
    &&& forall|j: int| 0 <= j < t.len() ==> spec_is_ident_char(#[trigger] t[j])
}

pub open spec fn spec_all_segs_valid_build(segs: Seq<Seq<char>>) -> bool {
    forall|k: int| 0 <= k < segs.len() ==> spec_valid_build_seg(#[trigger] segs[k])
}

pub open spec fn spec_valid_build(s: Seq<char>) -> bool {
    s.len() == 0 || spec_all_segs_valid_build(spec_split(s, '.'))
}

fn valid_pre_seg(t: &str) -> (r: bool)
    ensures
        r == spec_valid_pre_seg(t@),
{
    let n = t.unicode_len();
    if n == 0 {
        return false;
    }
    let mut i: usize = 0;
    let mut all_digits = true;
    while i < n
        invariant
            i <= n,
            n == t@.len(),
            forall|j: int| 0 <= j < i ==> spec_is_ident_char(#[trigger] t@[j]),
            all_digits == forall|j: int| 0 <= j < i ==> spec_is_digit(#[trigger] t@[j]),
        decreases n - i,
    {
        let c = t.get_char(i);
        if !is_ident_char(c) {
            return false;
        }
        if !is_digit(c) {
            all_digits = false;
        }
        i = i + 1;
    }
    if all_digits && n > 1 && t.get_char(0) == '0' {
        return false;
    }
    true
}

pub fn valid_pre(s: &str) -> (r: bool)
    ensures
        r == spec_valid_pre(s@),
{
    if s.is_empty() {
        return true;
    }
    let segs = split_char(s, '.');
    let n = segs.len();
    let mut k: usize = 0;
    while k < n
        invariant
            k <= n,
            s@.len() != 0,
            n == segs.deep_view().len(),
            segs.deep_view() == spec_split(s@, '.'),
            forall|j: int| 0 <= j < k ==> spec_valid_pre_seg(#[trigger] spec_split(s@, '.')[j]),
        decreases n - k,
    {
        proof {
            assert(segs.deep_view()[k as int] == segs@[k as int]@);
        }
        if !valid_pre_seg(segs[k].as_str()) {
            proof {
                assert(!spec_valid_pre_seg(spec_split(s@, '.')[k as int]));
                assert(!spec_all_segs_valid_pre(spec_split(s@, '.')));
            }
            return false;
        }
        k = k + 1;
    }
    true
}

fn valid_build_seg(t: &str) -> (r: bool)
    ensures
        r == spec_valid_build_seg(t@),
{
    let n = t.unicode_len();
    if n == 0 {
        return false;
    }
    let mut i: usize = 0;
    while i < n
        invariant
            i <= n,
            n == t@.len(),
            forall|j: int| 0 <= j < i ==> spec_is_ident_char(#[trigger] t@[j]),
        decreases n - i,
    {
        if !is_ident_char(t.get_char(i)) {
            return false;
        }
        i = i + 1;
    }
    true
}

pub fn valid_build(s: &str) -> (r: bool)
    ensures
        r == spec_valid_build(s@),
{
    if s.is_empty() {
        return true;
    }
    let segs = split_char(s, '.');
    let n = segs.len();
    let mut k: usize = 0;
    while k < n
        invariant
            k <= n,
            s@.len() != 0,
            n == segs.deep_view().len(),
            segs.deep_view() == spec_split(s@, '.'),
            forall|j: int| 0 <= j < k ==> spec_valid_build_seg(#[trigger] spec_split(s@, '.')[j]),
        decreases n - k,
    {
        proof {
            assert(segs.deep_view()[k as int] == segs@[k as int]@);
        }
        if !valid_build_seg(segs[k].as_str()) {
            proof {
                assert(!spec_valid_build_seg(spec_split(s@, '.')[k as int]));
                assert(!spec_all_segs_valid_build(spec_split(s@, '.')));
            }
            return false;
        }
        k = k + 1;
    }
    true
}

// ---------------------------------------------------------------------------
// Executable scanners.
// ---------------------------------------------------------------------------

/// First digit position, or `None` when the string has no digit.
fn find_first_digit(s: &str) -> (r: Option<usize>)
    ensures
        (r is Some) == (spec_first_digit(s@) >= 0),
        r is Some ==> r->0 == spec_first_digit(s@) && r->0 < s@.len() && spec_is_digit(
            s@[r->0 as int],
        ),
{
    let n = s.unicode_len();
    let mut i: usize = 0;
    while i < n && !is_digit(s.get_char(i))
        invariant
            i <= n,
            n == s@.len(),
            forall|j: int| 0 <= j < i ==> !spec_is_digit(#[trigger] s@[j]),
        decreases n - i,
    {
        i = i + 1;
    }
    if i == n {
        proof {
            lemma_first_digit_none(s@);
        }
        None
    } else {
        proof {
            lemma_first_digit_at(s@, i as int);
        }
        Some(i)
    }
}

/// End of the digit run that starts at `from`.
pub fn scan_digits(s: &str, from: usize) -> (e: usize)
    requires
        from <= s@.len(),
    ensures
        from <= e <= s@.len(),
        e == spec_digits_end(s@, from as int),
        forall|j: int| from <= j < e ==> spec_is_digit(#[trigger] s@[j]),
        e < s@.len() ==> !spec_is_digit(s@[e as int]),
{
    let n = s.unicode_len();
    let mut e: usize = from;
    while e < n && is_digit(s.get_char(e))
        invariant
            from <= e <= n,
            n == s@.len(),
            forall|j: int| from <= j < e ==> spec_is_digit(#[trigger] s@[j]),
        decreases n - e,
    {
        e = e + 1;
    }
    proof {
        lemma_digits_end_at(s@, from as int, e as int);
    }
    e
}

// ---------------------------------------------------------------------------
// The Go listing's version grammar: an ignored non-digit prefix (such as
// "go"), then `major.minor`, an optional `.patch`, and any trailing text
// taken verbatim as the prerelease tag.
// ---------------------------------------------------------------------------

pub open spec fn spec_parse_go_semver(s: Seq<char>) -> Option<SemVerView> {
    let i0 = spec_first_digit(s);
    if i0 < 0 {
        None
    } else {
        let e1 = spec_digits_end(s, i0);
        if !(e1 < s.len() && s[e1] == '.' && e1 + 1 < s.len() && spec_is_digit(s[e1 + 1])) {
            None
        } else {
            let e2 = spec_digits_end(s, e1 + 1);
            let has_patch = e2 + 1 < s.len() && s[e2] == '.' && spec_is_digit(s[e2 + 1]);
            let e3 = if has_patch {
                spec_digits_end(s, e2 + 1)
            } else {
                e2
            };
            let major = spec_num_val(s.subrange(i0, e1));
            let minor = spec_num_val(s.subrange(e1 + 1, e2));
            let patch = if has_patch {
                spec_num_val(s.subrange(e2 + 1, e3))
            } else {
                0
            };
            let pre = s.skip(e3);
            if major > u64::MAX || minor > u64::MAX || patch > u64::MAX || !spec_valid_pre(pre) {
                None
            } else {
                Some(
                    SemVerView {
                        major: major as u64,
                        minor: minor as u64,
                        patch: patch as u64,
                        pre: pre,
                        build: Seq::empty(),
                    },
                )
            }
        }
    }
}

/// Parses one Go version token, for example `go1.21.0` or `1.10beta1`.
pub fn parse_go_semver(s: &str) -> (r: Option<SemVer>)
    ensures
        (r is Some) == (spec_parse_go_semver(s@) is Some),
        r is Some ==> r->0@ == spec_parse_go_semver(s@)->0,
{
    let n = s.unicode_len();
    let i0 = match find_first_digit(s) {
        Some(i) => i,
        None => {
            return None;
        },
    };
    let e1 = scan_digits(s, i0);
    if !(e1 < n && s.get_char(e1) == '.') {
        return None;
    }
    if !(e1 + 1 < n && is_digit(s.get_char(e1 + 1))) {
        return None;
    }
    let e2 = scan_digits(s, e1 + 1);
    let has_patch = e2 < n && e2 + 1 < n && s.get_char(e2) == '.' && is_digit(s.get_char(e2 + 1));
    let e3 = if has_patch {
        scan_digits(s, e2 + 1)
    } else {
        e2
    };
    let major = match parse_u64(s.substring_char(i0, e1)) {
        Some(v) => v,
        None => {
            return None;
        },
    };
    let minor = match parse_u64(s.substring_char(e1 + 1, e2)) {
        Some(v) => v,
        None => {
            return None;
        },
    };
    let patch = if has_patch {
        match parse_u64(s.substring_char(e2 + 1, e3)) {
            Some(v) => v,
            None => {
                return None;
            },
        }
    } else {
        0
    };
    let pre = s.substring_char(e3, n).to_owned();
    proof {
        assert(s@.skip(e3 as int) =~= s@.subrange(e3 as int, n as int));
    }
    if !valid_pre(pre.as_str()) {
        return None;
    }
    Some(SemVer { major, minor, patch, pre, build: String::new() })
}

// ---------------------------------------------------------------------------
// The Java grammar: `major[.minor][.patch][-pre][+build]` anywhere in the
// token, trailing text ignored; an invalid prerelease or build section falls
// back to empty instead of rejecting the record.
// ---------------------------------------------------------------------------

/// A word character or a dot: what the Java prerelease and build sections
/// may hold.
pub open spec fn spec_is_worddot(c: char) -> bool {
    spec_is_digit(c)
    || (('a' as u32) <= (c as u32) && (c as u32) <= ('z' as u32))
    || (('A' as u32) <= (c as u32) && (c as u32) <= ('Z' as u32))
    || c == '_'
    || c == '.'
}

fn is_worddot(c: char) -> (r: bool)
    ensures
        r == spec_is_worddot(c),
{
    is_digit(c)
    || (('a' as u32) <= (c as u32) && (c as u32) <= ('z' as u32))
    || (('A' as u32) <= (c as u32) && (c as u32) <= ('Z' as u32))
    || c == '_'
    || c == '.'
}

pub open spec fn spec_worddot_end(s: Seq<char>, i: int) -> int
    decreases s.len() - i,
{
    if i < 0 || i >= s.len() {
        if i < 0 {
            0
        } else {
            s.len() as int
        }
    } else if !spec_is_worddot(s[i]) {
        i
    } else {
        spec_worddot_end(s, i + 1)
    }
}

proof fn lemma_worddot_end_at(s: Seq<char>, i: int, e: int)
    requires
        0 <= i <= e <= s.len(),
        forall|j: int| i <= j < e ==> spec_is_worddot(#[trigger] s[j]),
        e < s.len() ==> !spec_is_worddot(s[e]),
    ensures
        spec_worddot_end(s, i) == e,
    decreases e - i,
{
    if i < e {
        lemma_worddot_end_at(s, i + 1, e);
    }
}

fn scan_worddot(s: &str, from: usize) -> (e: usize)
    requires
        from <= s@.len(),
    ensures
        from <= e <= s@.len(),
        e == spec_worddot_end(s@, from as int),
{
    let n = s.unicode_len();
    let mut e: usize = from;
    while e < n && is_worddot(s.get_char(e))
        invariant
            from <= e <= n,
            n == s@.len(),
            forall|j: int| from <= j < e ==> spec_is_worddot(#[trigger] s@[j]),
        decreases n - e,
    {
        e = e + 1;
    }
    proof {
        lemma_worddot_end_at(s@, from as int, e as int);
    }
    e
}

pub open spec fn spec_parse_java_semver(s: Seq<char>) -> Option<SemVerView> {
    let i0 = spec_first_digit(s);
    if i0 < 0 {
        None
    } else {
        let e1 = spec_digits_end(s, i0);
        let has_minor = e1 < s.len() && e1 + 1 < s.len() && s[e1] == '.' && spec_is_digit(
            s[e1 + 1],
        );
        let e2 = if has_minor {
            spec_digits_end(s, e1 + 1)
        } else {
            e1
        };
        let has_patch = has_minor && e2 < s.len() && e2 + 1 < s.len() && s[e2] == '.'
            && spec_is_digit(s[e2 + 1]);
        let e3 = if has_patch {
            spec_digits_end(s, e2 + 1)
        } else {
            e2
        };
        let major = spec_num_val(s.subrange(i0, e1));
        let minor = if has_minor {
            spec_num_val(s.subrange(e1 + 1, e2))
        } else {
            0
        };
        let patch = if has_patch {
            spec_num_val(s.subrange(e2 + 1, e3))
        } else {
            0
        };
        let has_pre = e3 < s.len() && e3 + 1 < s.len() && s[e3] == '-' && spec_is_worddot(
            s[e3 + 1],
        );
        let e4 = if has_pre {
            spec_worddot_end(s, e3 + 1)
        } else {
            e3
        };
        let pre_raw = if has_pre {
            s.subrange(e3 + 1, e4)
        } else {
            Seq::<char>::empty()
        };
        let pre = if spec_valid_pre(pre_raw) {
            pre_raw
        } else {
            Seq::<char>::empty()
        };
        let has_build = e4 < s.len() && e4 + 1 < s.len() && s[e4] == '+' && spec_is_worddot(
            s[e4 + 1],
        );
        let e5 = if has_build {
            spec_worddot_end(s, e4 + 1)
        } else {
            e4
        };
        let build_raw = if has_build {
            s.subrange(e4 + 1, e5)
        } else {
            Seq::<char>::empty()
        };
        let build = if spec_valid_build(build_raw) {
            build_raw
        } else {
            Seq::<char>::empty()
        };
        if major > u64::MAX || minor > u64::MAX || patch > u64::MAX {
            None
        } else {
            Some(
                SemVerView {
                    major: major as u64,
                    minor: minor as u64,
                    patch: patch as u64,
                    pre: pre,
                    build: build,
                },
            )
        }
    }
}

/// Parses one Java version token, for example `21.0.2`, `17.0.3+6.1` or
/// `23-ea+3`.
pub fn parse_java_semver(s: &str) -> (r: Option<SemVer>)
    ensures
        (r is Some) == (spec_parse_java_semver(s@) is Some),
        r is Some ==> r->0@ == spec_parse_java_semver(s@)->0,
{
    let n = s.unicode_len();
    let i0 = match find_first_digit(s) {
        Some(i) => i,
        None => {
            return None;
        },
    };
    let e1 = scan_digits(s, i0);
    let has_minor = e1 < n && e1 + 1 < n && s.get_char(e1) == '.' && is_digit(s.get_char(e1 + 1));
    let e2 = if has_minor {
        scan_digits(s, e1 + 1)
    } else {
        e1
    };
    let has_patch = has_minor && e2 < n && e2 + 1 < n && s.get_char(e2) == '.' && is_digit(
        s.get_char(e2 + 1),
    );
    let e3 = if has_patch {
        scan_digits(s, e2 + 1)
    } else {
        e2
    };
    let major = match parse_u64(s.substring_char(i0, e1)) {
        Some(v) => v,
        None => {
            return None;
        },
    };
    let minor = if has_minor {
        match parse_u64(s.substring_char(e1 + 1, e2)) {
            Some(v) => v,
            None => {
                return None;
            },
        }
    } else {
        0
    };
    let patch = if has_patch {
        match parse_u64(s.substring_char(e2 + 1, e3)) {
            Some(v) => v,
            None => {
                return None;
            },
        }
    } else {
        0
    };
    let has_pre = e3 < n && e3 + 1 < n && s.get_char(e3) == '-' && is_worddot(s.get_char(e3 + 1));
    let e4 = if has_pre {
        scan_worddot(s, e3 + 1)
    } else {
        e3
    };
    let pre_raw = if has_pre {
        s.substring_char(e3 + 1, e4).to_owned()
    } else {
        String::new()
    };
    let pre = if valid_pre(pre_raw.as_str()) {
        pre_raw
    } else {
        String::new()
    };
    let has_build = e4 < n && e4 + 1 < n && s.get_char(e4) == '+' && is_worddot(
        s.get_char(e4 + 1),
    );
    let e5 = if has_build {
        scan_worddot(s, e4 + 1)
    } else {
        e4
    };
    let build_raw = if has_build {
        s.substring_char(e4 + 1, e5).to_owned()
    } else {
        String::new()
    };
    let build = if valid_build(build_raw.as_str()) {
        build_raw
    } else {
        String::new()
    };
    Some(SemVer { major, minor, patch, pre, build })
}

// ---------------------------------------------------------------------------
// The strict grammar: exactly `major.minor.patch` from the first character,
// optional `-pre` and `+build`, nothing after them, no leading zeros.
// ---------------------------------------------------------------------------

/// A character allowed in strict prerelease or build sections.
pub open spec fn spec_is_prech(c: char) -> bool {
    spec_is_ident_char(c) || c == '.'
}

fn is_prech(c: char) -> (r: bool)
    ensures
        r == spec_is_prech(c),
{
    is_ident_char(c) || c == '.'
}

pub open spec fn spec_prech_end(s: Seq<char>, i: int) -> int
    decreases s.len() - i,
{
    if i < 0 || i >= s.len() {
        if i < 0 {
            0
        } else {
            s.len() as int
        }
    } else if !spec_is_prech(s[i]) {
        i
    } else {
        spec_prech_end(s, i + 1)
    }
}

proof fn lemma_prech_end_at(s: Seq<char>, i: int, e: int)
    requires
        0 <= i <= e <= s.len(),
        forall|j: int| i <= j < e ==> spec_is_prech(#[trigger] s[j]),
        e < s.len() ==> !spec_is_prech(s[e]),
    ensures
        spec_prech_end(s, i) == e,
    decreases e - i,
{
    if i < e {
        lemma_prech_end_at(s, i + 1, e);
    }
}

fn scan_prech(s: &str, from: usize) -> (e: usize)
    requires
        from <= s@.len(),
    ensures
        from <= e <= s@.len(),
        e == spec_prech_end(s@, from as int),
{
    let n = s.unicode_len();
    let mut e: usize = from;
    while e < n && is_prech(s.get_char(e))
        invariant
            from <= e <= n,
            n == s@.len(),
            forall|j: int| from <= j < e ==> spec_is_prech(#[trigger] s@[j]),
        decreases n - e,
    {
        e = e + 1;
    }
    proof {
        lemma_prech_end_at(s@, from as int, e as int);
    }
    e
}

pub open spec fn spec_parse_strict_semver(s: Seq<char>) -> Option<SemVerView> {
    let e1 = spec_digits_end(s, 0);
    if e1 == 0 || (e1 > 1 && s[0] == '0') || e1 >= s.len() || s[e1] != '.' {
        None
    } else {
        let m0 = e1 + 1;
        let e2 = spec_digits_end(s, m0);
        if e2 == m0 || (e2 - m0 > 1 && s[m0] == '0') || e2 >= s.len() || s[e2] != '.' {
            None
        } else {
            let p0 = e2 + 1;
            let e3 = spec_digits_end(s, p0);
            if e3 == p0 || (e3 - p0 > 1 && s[p0] == '0') {
                None
            } else {
                let major = spec_num_val(s.subrange(0, e1));
                let minor = spec_num_val(s.subrange(m0, e2));
                let patch = spec_num_val(s.subrange(p0, e3));
                let has_pre = e3 < s.len() && s[e3] == '-';
                let p_end = if has_pre {
                    spec_prech_end(s, e3 + 1)
                } else {
                    e3
                };
                let pre = if has_pre {
                    s.subrange(e3 + 1, p_end)
                } else {
                    Seq::<char>::empty()
                };
                let has_build = p_end < s.len() && s[p_end] == '+';
                let b_end = if has_build {
                    spec_prech_end(s, p_end + 1)
                } else {
                    p_end
                };
                let build = if has_build {
                    s.subrange(p_end + 1, b_end)
                } else {
                    Seq::<char>::empty()
                };
                if major > u64::MAX || minor > u64::MAX || patch > u64::MAX || (has_pre && (
                pre.len() == 0 || !spec_valid_pre(pre))) || (has_build && (build.len() == 0
                    || !spec_valid_build(build))) || b_end != s.len() {
                    None
                } else {
                    Some(
                        SemVerView {
                            major: major as u64,
                            minor: minor as u64,
                            patch: patch as u64,
                            pre: pre,
                            build: build,
                        },
                    )
                }
            }
        }
    }
}

/// Parses one strict semantic version, for example `20.10.0` or
/// `9.0.0-rc.1+build.5`.
pub fn parse_strict_semver(s: &str) -> (r: Option<SemVer>)
    ensures
        (r is Some) == (spec_parse_strict_semver(s@) is Some),
        r is Some ==> r->0@ == spec_parse_strict_semver(s@)->0,
{
    let n = s.unicode_len();
    let e1 = scan_digits(s, 0);
    if e1 == 0 {
        return None;
    }
    if e1 > 1 && s.get_char(0) == '0' {
        return None;
    }
    if !(e1 < n && s.get_char(e1) == '.') {
        return None;
    }
    let m0 = e1 + 1;
    let e2 = scan_digits(s, m0);
    if e2 == m0 {
        return None;
    }
    if e2 - m0 > 1 && s.get_char(m0) == '0' {
        return None;
    }
    if !(e2 < n && s.get_char(e2) == '.') {
        return None;
    }
    let p0 = e2 + 1;
    let e3 = scan_digits(s, p0);
    if e3 == p0 {
        return None;
    }
    if e3 - p0 > 1 && s.get_char(p0) == '0' {
        return None;
    }
    let major = match parse_u64(s.substring_char(0, e1)) {
        Some(v) => v,
        None => {
            return None;
        },
    };
    let minor = match parse_u64(s.substring_char(m0, e2)) {
        Some(v) => v,
        None => {
            return None;
        },
    };
    let patch = match parse_u64(s.substring_char(p0, e3)) {
        Some(v) => v,
        None => {
            return None;
        },
    };
    let has_pre = e3 < n && s.get_char(e3) == '-';
    let p_end = if has_pre {
        scan_prech(s, e3 + 1)
    } else {
        e3
    };
    let pre = if has_pre {
        s.substring_char(e3 + 1, p_end).to_owned()
    } else {
        String::new()
    };
    if has_pre && (pre.as_str().is_empty() || !valid_pre(pre.as_str())) {
        return None;
    }
    let has_build = p_end < n && s.get_char(p_end) == '+';
    let b_end = if has_build {
        scan_prech(s, p_end + 1)
    } else {
        p_end
    };
    let build = if has_build {
        s.substring_char(p_end + 1, b_end).to_owned()
    } else {
        String::new()
    };
    if has_build && (build.as_str().is_empty() || !valid_build(build.as_str())) {
        return None;
    }
    if b_end != n {
        return None;
    }
    Some(SemVer { major, minor, patch, pre, build })
}

} // verus!
