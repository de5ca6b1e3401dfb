//! The Corretto catalog: releases are read from release-note bodies, each
//! a Markdown-like table whose rows carry a download link cell and a
//! checksum cell. Rows that do not fit are skipped, never fatal.

use vstd::prelude::*;
use crate::java::{
    JavaPackage, JavaVersion, PackageKind, spec_vendor_trim, spec_corretto_version_text,
};
use crate::parse::spec_parse_java_semver;
use crate::strutil::{
    spec_is_space, is_space, spec_split, split_char, str_eq, spec_is_digit, is_digit,
};

verus! {

// ---------------------------------------------------------------------------
// Row splitting: the body's rows are separated by a carriage return and a
// line feed; a cell is trimmed of blanks and dashes, and empty cells drop
// out.
// ---------------------------------------------------------------------------

/// Index of the first CRLF pair, or -1.
pub open spec fn spec_find_crlf(s: Seq<char>) -> int
    decreases s.len(),
{
    if s.len() < 2 {
        -1
    } else if s[0] == '\r' && s[1] == '\n' {
        0
    } else {
        let r = spec_find_crlf(s.drop_first());
        if r < 0 {
            -1
        } else {
            r + 1
        }
    }
}

proof fn lemma_find_crlf_at(s: Seq<char>, k: int)
    requires
        0 <= k,
        k + 1 < s.len(),
        s[k] == '\r' && s[k + 1] == '\n',
        forall|j: int| 0 <= j < k ==> !((#[trigger] s[j]) == '\r' && s[j + 1] == '\n'),
    ensures
        spec_find_crlf(s) == k,
    decreases s.len(),
{
    if k > 0 {
        let t = s.drop_first();
        assert forall|j: int| 0 <= j < k - 1 implies !((#[trigger] t[j]) == '\r' && t[j + 1] == '\n') by {
            assert(t[j] == s[j + 1] && t[j + 1] == s[j + 2]);
        }
        assert(t[k - 1] == s[k] && t[k] == s[k + 1]);
        lemma_find_crlf_at(t, k - 1);
    }
}

proof fn lemma_find_crlf_none(s: Seq<char>)
    requires
        forall|j: int| 0 <= j && j + 1 < s.len() ==> !((#[trigger] s[j]) == '\r' && s[j + 1] == '\n'),
    ensures
        spec_find_crlf(s) < 0,
    decreases s.len(),
{
    if s.len() >= 2 {
        let t = s.drop_first();
        assert forall|j: int| 0 <= j && j + 1 < t.len() implies !((#[trigger] t[j]) == '\r' && t[j + 1] == '\n') by {
            assert(t[j] == s[j + 1] && t[j + 1] == s[j + 2]);
        }
        lemma_find_crlf_none(t);
    }
}

/// The body's rows, split at every CRLF.
pub open spec fn spec_split_crlf(s: Seq<char>) -> Seq<Seq<char>>
    decreases s.len(),
    via spec_split_crlf_decreases
{
    let i = spec_find_crlf(s);
    if i < 0 {
        seq![s]
    } else {
        seq![s.take(i)] + spec_split_crlf(s.skip(i + 2))
    }
}

#[via_fn]
proof fn spec_split_crlf_decreases(s: Seq<char>) {
    lemma_find_crlf_props(s);
}

proof fn lemma_find_crlf_props(s: Seq<char>)
    ensures
        spec_find_crlf(s) >= 0 ==> spec_find_crlf(s) + 1 < s.len(),
    decreases s.len(),
{
    if s.len() >= 2 && !(s[0] == '\r' && s[1] == '\n') {
        lemma_find_crlf_props(s.drop_first());
    }
}

pub fn split_crlf(s: &str) -> (r: Vec<String>)
    ensures
        r.deep_view() == spec_split_crlf(s@),
{
    let n = s.unicode_len();
    let mut r: Vec<String> = Vec::new();
    let mut start: usize = 0;
    let mut i: usize = 0;
    proof {
        assert(s@.skip(0) =~= s@);
        assert(r.deep_view() + spec_split_crlf(s@) =~= spec_split_crlf(s@));
    }
    while i < n
        invariant
            start <= i <= n,
            n == s@.len(),
            forall|j: int| start <= j < i ==> !((#[trigger] s@[j]) == '\r' && j + 1 < n && s@[j + 1] == '\n'),
            spec_split_crlf(s@) == r.deep_view() + spec_split_crlf(s@.skip(start as int)),
        decreases n - i,
    {
        if s.get_char(i) == '\r' && i + 1 < n && s.get_char(i + 1) == '\n' {
            let tok = s.substring_char(start, i).to_owned();
            let ghost dv = r.deep_view();
            proof {
                let rest = s@.skip(start as int);
                assert forall|j: int| 0 <= j < i - start implies !((#[trigger] rest[j]) == '\r'
                    && rest[j + 1] == '\n') by {
                    assert(rest[j] == s@[start + j]);
                    if start + j + 1 < n {
                        assert(rest[j + 1] == s@[start + j + 1]);
                    }
                }
                assert(rest[i - start] == s@[i as int]);
                assert(rest[i - start + 1] == s@[i + 1]);
                lemma_find_crlf_at(rest, i - start);
                assert(rest.take(i - start) =~= s@.subrange(start as int, i as int));
                assert(rest.skip(i - start + 2) =~= s@.skip(i + 2));
            }
            r.push(tok);
            proof {
                assert(r.deep_view() =~= dv.push(tok@));
                assert(dv.push(tok@) + spec_split_crlf(s@.skip(i + 2)) =~= dv + spec_split_crlf(
                    s@.skip(start as int),
                ));
            }
            start = i + 2;
            i = i + 2;
        } else {
            i = i + 1;
        }
    }
    let tok = s.substring_char(start, n).to_owned();
    let ghost dv = r.deep_view();
    proof {
        let rest = s@.skip(start as int);
        assert forall|j: int| 0 <= j && j + 1 < rest.len() implies !((#[trigger] rest[j]) == '\r'
            && rest[j + 1] == '\n') by {
            assert(rest[j] == s@[start + j]);
            assert(rest[j + 1] == s@[start + j + 1]);
        }
        lemma_find_crlf_none(rest);
        assert(rest =~= s@.subrange(start as int, n as int));
    }
    r.push(tok);
    proof {
        assert(r.deep_view() =~= dv.push(tok@));
        assert(dv.push(tok@) =~= dv + spec_split_crlf(s@.skip(start as int)));
    }
    r
}

// ---------------------------------------------------------------------------
// Cells.
// ---------------------------------------------------------------------------

/// What a table cell is trimmed of: whitespace and row-divider dashes.
pub open spec fn spec_is_cell_pad(c: char) -> bool {
    spec_is_space(c) || c == '-'
}

fn is_cell_pad(c: char) -> (r: bool)
    ensures
        r == spec_is_cell_pad(c),
{
    is_space(c) || c == '-'
}

pub open spec fn spec_trim_cell_start(s: Seq<char>) -> Seq<char>
    decreases s.len(),
{
    if s.len() > 0 && spec_is_cell_pad(s[0]) {
        spec_trim_cell_start(s.drop_first())
    } else {
        s
    }
}

pub open spec fn spec_trim_cell_end(s: Seq<char>) -> Seq<char>
    decreases s.len(),
{
    if s.len() > 0 && spec_is_cell_pad(s.last()) {
        spec_trim_cell_end(s.drop_last())
    } else {
        s
    }
}

pub open spec fn spec_trim_cell(s: Seq<char>) -> Seq<char> {
    spec_trim_cell_end(spec_trim_cell_start(s))
}

proof fn lemma_trim_cell_start_skip(s: Seq<char>, i: int)
    requires
        0 <= i <= s.len(),
        forall|j: int| 0 <= j < i ==> spec_is_cell_pad(s[j]),
        i < s.len() ==> !spec_is_cell_pad(s[i]),
    ensures
        spec_trim_cell_start(s) == s.skip(i),
    decreases i,
{
    if i == 0 {
        if s.len() > 0 {
            assert(!spec_is_cell_pad(s[0]));
        }
        assert(s.skip(0) =~= s);
    } else {
        assert(spec_is_cell_pad(s[0]));
        let t = s.drop_first();
        assert forall|j: int| 0 <= j < i - 1 implies spec_is_cell_pad(t[j]) by {
            assert(t[j] == s[j + 1]);
        }
        if i - 1 < t.len() {
            assert(t[i - 1] == s[i]);
        }
        lemma_trim_cell_start_skip(t, i - 1);
        assert(t.skip(i - 1) =~= s.skip(i));
    }
}

proof fn lemma_trim_cell_end_take(s: Seq<char>, i: int)
    requires
        0 <= i <= s.len(),
        forall|j: int| i <= j < s.len() ==> spec_is_cell_pad(s[j]),
        i > 0 ==> !spec_is_cell_pad(s[i - 1]),
    ensures
        spec_trim_cell_end(s) == s.take(i),
    decreases s.len() - i,
{
    if i == s.len() {
        if s.len() > 0 {
            assert(!spec_is_cell_pad(s.last()));
        }
        assert(s.take(i) =~= s);
    } else {
        assert(spec_is_cell_pad(s.last()));
        let t = s.drop_last();
        lemma_trim_cell_end_take(t, i);
        assert(t.take(i) =~= s.take(i));
    }
}

pub fn trim_cell(s: &str) -> (r: String)
    ensures
        r@ == spec_trim_cell(s@),
{
    let n = s.unicode_len();
    let mut a: usize = 0;
    while a < n && is_cell_pad(s.get_char(a))
        invariant
            a <= n,
            n == s@.len(),
            forall|j: int| 0 <= j < a ==> spec_is_cell_pad(s@[j]),
        decreases n - a,
    {
        a = a + 1;
    }
    let mut b: usize = n;
    while b > a && is_cell_pad(s.get_char(b - 1))
        invariant
            a <= b <= n,
            n == s@.len(),
            forall|j: int| 0 <= j < a ==> spec_is_cell_pad(s@[j]),
            forall|j: int| b <= j < n ==> spec_is_cell_pad(s@[j]),
        decreases b,
    {
        b = b - 1;
    }
    proof {
        lemma_trim_cell_start_skip(s@, a as int);
        let t = s@.skip(a as int);
        if b == a {
            assert forall|j: int| 0 <= j < t.len() implies spec_is_cell_pad(t[j]) by {
                assert(t[j] == s@[a + j]);
            }
            lemma_trim_cell_end_take(t, 0);
        } else {
            assert forall|j: int| b - a <= j < t.len() implies spec_is_cell_pad(t[j]) by {
                assert(t[j] == s@[a + j]);
            }
            assert(t[b - a - 1] == s@[b - 1]);
            lemma_trim_cell_end_take(t, b - a);
        }
        assert(t.take(b - a) =~= s@.subrange(a as int, b as int));
    }
    s.substring_char(a, b).to_owned()
}

/// One row's cells: split at pipes, trimmed, empties dropped.
pub open spec fn spec_row_segments(parts: Seq<Seq<char>>) -> Seq<Seq<char>>
    decreases parts.len(),
{
    if parts.len() == 0 {
        Seq::empty()
    } else {
        let t = spec_trim_cell(parts[0]);
        (if t.len() > 0 {
            seq![t]
        } else {
            Seq::<Seq<char>>::empty()
        }) + spec_row_segments(parts.drop_first())
    }
}

proof fn lemma_row_segments_push(parts: Seq<Seq<char>>, e: Seq<char>)
    ensures
        spec_row_segments(parts.push(e)) == spec_row_segments(parts) + spec_row_segments(seq![e]),
    decreases parts.len(),
{
    if parts.len() == 0 {
        assert(parts.push(e)[0] == e);
        assert(parts.push(e).drop_first() =~= Seq::<Seq<char>>::empty());
        assert(seq![e][0] == e);
        assert(seq![e].drop_first() =~= Seq::<Seq<char>>::empty());
        assert(spec_row_segments(parts) + spec_row_segments(seq![e]) =~= spec_row_segments(
            seq![e],
        ));
    } else {
        assert(parts.push(e)[0] == parts[0]);
        assert(parts.push(e).drop_first() =~= parts.drop_first().push(e));
        lemma_row_segments_push(parts.drop_first(), e);
        let t = spec_trim_cell(parts[0]);
        if t.len() > 0 {
            assert(seq![t] + (spec_row_segments(parts.drop_first()) + spec_row_segments(seq![e]))
                =~= (seq![t] + spec_row_segments(parts.drop_first())) + spec_row_segments(seq![e]));
        } else {
            assert(spec_row_segments(parts.drop_first()) + spec_row_segments(seq![e])
                =~= spec_row_segments(parts) + spec_row_segments(seq![e]));
        }
    }
}

pub fn row_segments(line: &str) -> (r: Vec<String>)
    ensures
        r.deep_view() == spec_row_segments(spec_split(line@, '|')),
{
    let parts = split_char(line, '|');
    let ghost pv = spec_split(line@, '|');
    let mut r: Vec<String> = Vec::new();
    let n = parts.len();
    let mut i: usize = 0;
    proof {
        assert(pv.take(0) =~= Seq::<Seq<char>>::empty());
        assert(r.deep_view() =~= spec_row_segments(pv.take(0)));
    }
    while i < n
        invariant
            i <= n,
            n == parts@.len(),
            pv == parts.deep_view(),
            r.deep_view() == spec_row_segments(pv.take(i as int)),
        decreases n - i,
    {
        proof {
            assert(pv[i as int] == parts@[i as int]@);
        }
        let t = trim_cell(parts[i].as_str());
        let ghost dv = r.deep_view();
        if !t.as_str().is_empty() {
            r.push(t);
        }
        proof {
            assert(pv.take(i + 1) =~= pv.take(i as int).push(pv[i as int]));
            lemma_row_segments_push(pv.take(i as int), pv[i as int]);
            assert(seq![pv[i as int]][0] == pv[i as int]);
            assert(seq![pv[i as int]].drop_first() =~= Seq::<Seq<char>>::empty());
            assert(spec_row_segments(Seq::<Seq<char>>::empty()) == Seq::<Seq<char>>::empty());
            if r.deep_view().len() > dv.len() {
                assert(r.deep_view() =~= dv + spec_row_segments(seq![pv[i as int]]));
            } else {
                assert(r.deep_view() =~= dv + spec_row_segments(seq![pv[i as int]]));
            }
        }
        i = i + 1;
    }
    proof {
        assert(pv.take(n as int) =~= pv);
    }
    r
}

// ---------------------------------------------------------------------------
// The checksum cell: an MD5 digest between backticks, optionally followed
// by a break and a second backticked field read as a single character, as
// the upstream row format has it.
// ---------------------------------------------------------------------------

/// End of the run of whitespace that starts at `i`.
pub open spec fn spec_space_end(s: Seq<char>, i: int) -> int
    decreases s.len() - i,
{
    if i < 0 || i >= s.len() {
        if i < 0 {
            0
        } else {
            s.len() as int
        }
    } else if !spec_is_space(s[i]) {
        i
    } else {
        spec_space_end(s, i + 1)
    }
}

proof fn lemma_space_end_at(s: Seq<char>, i: int, e: int)
    requires
        0 <= i <= e <= s.len(),
        forall|j: int| i <= j < e ==> spec_is_space(#[trigger] s[j]),
        e < s.len() ==> !spec_is_space(s[e]),
    ensures
        spec_space_end(s, i) == e,
    decreases e - i,
{
    if i < e {
        lemma_space_end_at(s, i + 1, e);
    }
}

fn scan_space(s: &str, from: usize) -> (e: usize)
    requires
        from <= s@.len(),
    ensures
        from <= e <= s@.len(),
        e == spec_space_end(s@, from as int),
{
    let n = s.unicode_len();
    let mut e: usize = from;
    while e < n && is_space(s.get_char(e))
        invariant
            from <= e <= n,
            n == s@.len(),
            forall|j: int| from <= j < e ==> spec_is_space(#[trigger] s@[j]),
        decreases n - e,
    {
        e = e + 1;
    }
    proof {
        lemma_space_end_at(s@, from as int, e as int);
    }
    e
}

/// The optional second digest after the MD5 field: a break followed by one
/// backticked character.
pub open spec fn spec_sha_tail(s: Seq<char>, p: int) -> Option<Seq<char>> {
    let q = spec_space_end(s, p);
    if q == p || !(q + 4 <= s.len() && s[q] == '/' && s[q + 1] == '<' && s[q + 2] == 'b' && s[q + 3]
        == 'r') {
        None
    } else {
        let r = spec_space_end(s, q + 4);
        if r == q + 4 || !(r + 2 <= s.len() && s[r] == '/' && s[r + 1] == '>') {
            None
        } else {
            let t = spec_space_end(s, r + 2);
            if t == r + 2 || !(t + 3 <= s.len() && s[t] == '`' && s[t + 1] != '`' && s[t + 2]
                == '`') {
                None
            } else {
                Some(seq![s[t + 1]])
            }
        }
    }
}

/// The digests a checksum cell carries: the text between the first pair of
/// backticks, and optionally one more character from a second field.
pub open spec fn spec_checksum_cell(s: Seq<char>) -> Option<(Seq<char>, Option<Seq<char>>)> {
    let i = crate::strutil::spec_find(s, '`');
    if i < 0 {
        None
    } else {
        let j2 = crate::strutil::spec_find(s.skip(i + 1), '`');
        if j2 < 0 {
            None
        } else {
            Some((s.subrange(i + 1, i + 1 + j2), spec_sha_tail(s, i + 1 + j2 + 1)))
        }
    }
}

/// Reads the checksum cell: the MD5 digest, and the second field when the
/// row carries one.
pub fn parse_checksum_cell(s: &str) -> (r: Option<(String, Option<String>)>)
    ensures
        (r is Some) == (spec_checksum_cell(s@) is Some),
        r matches Some(p) ==> {
            &&& spec_checksum_cell(s@) matches Some(q)
            &&& p.0@ == q.0
            &&& (p.1 is Some) == (q.1 is Some)
            &&& (p.1 matches Some(x) ==> q.1 == Some(x@))
        },
{
    let n = s.unicode_len();
    let mut i: usize = 0;
    while i < n && s.get_char(i) != '`'
        invariant
            i <= n,
            n == s@.len(),
            forall|j: int| 0 <= j < i ==> s@[j] != '`',
        decreases n - i,
    {
        i = i + 1;
    }
    if i == n {
        proof {
            crate::strutil::lemma_find_none(s@, '`');
        }
        return None;
    }
    proof {
        crate::strutil::lemma_find_at(s@, '`', i as int);
    }
    let mut j: usize = i + 1;
    while j < n && s.get_char(j) != '`'
        invariant
            i + 1 <= j <= n,
            n == s@.len(),
            forall|k: int| i + 1 <= k < j ==> s@[k] != '`',
        decreases n - j,
    {
        j = j + 1;
    }
    let ghost rest = s@.skip(i + 1);
    if j == n {
        proof {
            assert forall|k: int| 0 <= k < rest.len() implies rest[k] != '`' by {
                assert(rest[k] == s@[i + 1 + k]);
            }
            crate::strutil::lemma_find_none(rest, '`');
        }
        return None;
    }
    proof {
        assert forall|k: int| 0 <= k < j - i - 1 implies rest[k] != '`' by {
            assert(rest[k] == s@[i + 1 + k]);
        }
        assert(rest[j - i - 1] == s@[j as int]);
        crate::strutil::lemma_find_at(rest, '`', j - i - 1);
    }
    let md5 = s.substring_char(i + 1, j).to_owned();
    let sha = sha_tail(s, j + 1);
    proof {
        assert(s@.subrange(i + 1, j as int) =~= s@.subrange(i + 1, i + 1 + (j - i - 1)));
    }
    Some((md5, sha))
}

fn sha_tail(s: &str, p: usize) -> (r: Option<String>)
    requires
        p <= s@.len(),
    ensures
        (r is Some) == (spec_sha_tail(s@, p as int) is Some),
        r matches Some(x) ==> spec_sha_tail(s@, p as int) == Some(x@),
{
    let n = s.unicode_len();
    let q = scan_space(s, p);
    if q == p || !(n - q >= 4 && s.get_char(q) == '/' && s.get_char(q + 1) == '<' && s.get_char(
        q + 2,
    ) == 'b' && s.get_char(q + 3) == 'r') {
        return None;
    }
    let r0 = scan_space(s, q + 4);
    if r0 == q + 4 || !(n - r0 >= 2 && s.get_char(r0) == '/' && s.get_char(r0 + 1) == '>') {
        return None;
    }
    let t = scan_space(s, r0 + 2);
    if t == r0 + 2 || !(n - t >= 3 && s.get_char(t) == '`' && s.get_char(t + 1) != '`'
        && s.get_char(t + 2) == '`') {
        return None;
    }
    let out = s.substring_char(t + 1, t + 2).to_owned();
    proof {
        assert(s@.subrange(t + 1, t + 2) =~= seq![s@[t + 1]]);
    }
    Some(out)
}

// ---------------------------------------------------------------------------
// The link cell: a bracketed label followed by a parenthesized link; of
// several link-shaped spans the rightmost counts.
// ---------------------------------------------------------------------------

/// Last index where `](` begins, or -1.
pub open spec fn spec_last_pair(s: Seq<char>) -> int
    decreases s.len(),
{
    if s.len() < 2 {
        -1
    } else if s[s.len() - 2] == ']' && s[s.len() - 1] == '(' {
        s.len() - 2
    } else {
        spec_last_pair(s.drop_last())
    }
}

proof fn lemma_last_pair_at(s: Seq<char>, k: int)
    requires
        0 <= k,
        k + 1 < s.len(),
        s[k] == ']' && s[k + 1] == '(',
        forall|j: int| k < j && j + 1 < s.len() ==> !((#[trigger] s[j]) == ']' && s[j + 1] == '('),
    ensures
        spec_last_pair(s) == k,
    decreases s.len(),
{
    if k + 2 < s.len() {
        let t = s.drop_last();
        assert forall|j: int| k < j && j + 1 < t.len() implies !((#[trigger] t[j]) == ']' && t[j
            + 1] == '(') by {
            assert(t[j] == s[j] && t[j + 1] == s[j + 1]);
        }
        assert(t[k] == s[k] && t[k + 1] == s[k + 1]);
        lemma_last_pair_at(t, k);
    }
}

proof fn lemma_last_pair_none(s: Seq<char>)
    requires
        forall|j: int| 0 <= j && j + 1 < s.len() ==> !((#[trigger] s[j]) == ']' && s[j + 1] == '('),
    ensures
        spec_last_pair(s) < 0,
    decreases s.len(),
{
    if s.len() >= 2 {
        let t = s.drop_last();
        assert forall|j: int| 0 <= j && j + 1 < t.len() implies !((#[trigger] t[j]) == ']' && t[j
            + 1] == '(') by {
            assert(t[j] == s[j] && t[j + 1] == s[j + 1]);
        }
        lemma_last_pair_none(t);
    }
}

/// Last index of `)`, or -1.
pub open spec fn spec_last_close(s: Seq<char>) -> int
    decreases s.len(),
{
    if s.len() == 0 {
        -1
    } else if s.last() == ')' {
        s.len() - 1
    } else {
        spec_last_close(s.drop_last())
    }
}

proof fn lemma_last_close_at(s: Seq<char>, k: int)
    requires
        0 <= k < s.len(),
        s[k] == ')',
        forall|j: int| k < j < s.len() ==> (#[trigger] s[j]) != ')',
    ensures
        spec_last_close(s) == k,
    decreases s.len(),
{
    if k + 1 < s.len() {
        let t = s.drop_last();
        assert forall|j: int| k < j < t.len() implies (#[trigger] t[j]) != ')' by {
            assert(t[j] == s[j]);
        }
        assert(t[k] == s[k]);
        lemma_last_close_at(t, k);
    }
}

proof fn lemma_last_close_none(s: Seq<char>)
    requires
        forall|j: int| 0 <= j < s.len() ==> (#[trigger] s[j]) != ')',
    ensures
        spec_last_close(s) < 0,
    decreases s.len(),
{
    if s.len() > 0 {
        let t = s.drop_last();
        assert forall|j: int| 0 <= j < t.len() implies (#[trigger] t[j]) != ')' by {
            assert(t[j] == s[j]);
        }
        lemma_last_close_none(t);
    }
}

/// The link a cell carries: the text between the rightmost `](` and the
/// rightmost `)` after it, with a `[` somewhere before.
pub open spec fn spec_link_cell(s: Seq<char>) -> Option<Seq<char>> {
    let f = crate::strutil::spec_find(s, '[');
    if f < 0 {
        None
    } else {
        let c = spec_last_pair(s);
        if c <= f {
            None
        } else {
            let p = spec_last_close(s);
            if p < c + 2 {
                None
            } else {
                Some(s.subrange(c + 2, p))
            }
        }
    }
}

pub fn parse_link_cell(s: &str) -> (r: Option<String>)
    ensures
        (r is Some) == (spec_link_cell(s@) is Some),
        r matches Some(u) ==> spec_link_cell(s@) == Some(u@),
{
    let n = s.unicode_len();
    let mut f: usize = 0;
    while f < n && s.get_char(f) != '['
        invariant
            f <= n,
            n == s@.len(),
            forall|j: int| 0 <= j < f ==> s@[j] != '[',
        decreases n - f,
    {
        f = f + 1;
    }
    if f == n {
        proof {
            crate::strutil::lemma_find_none(s@, '[');
        }
        return None;
    }
    proof {
        crate::strutil::lemma_find_at(s@, '[', f as int);
    }
    let mut c: usize = n;
    let mut found_pair = false;
    while c >= 2 && !found_pair
        invariant
            c <= n,
            n == s@.len(),
            !found_pair ==> forall|j: int|
                c - 1 <= j && j + 1 < n ==> !((#[trigger] s@[j]) == ']' && s@[j + 1] == '('),
            found_pair ==> c + 1 < n + 1 && 1 <= c && s@[c - 1] == ']' && s@[c as int] == '('
                && forall|j: int|
                c - 1 < j && j + 1 < n ==> !((#[trigger] s@[j]) == ']' && s@[j + 1] == '('),
        decreases c,
    {
        if s.get_char(c - 2) == ']' && s.get_char(c - 1) == '(' {
            found_pair = true;
            c = c - 1;
        } else {
            c = c - 2 + 1;
        }
    }
    if !found_pair {
        proof {
            lemma_last_pair_none(s@);
        }
        return None;
    }
    let pair_at = c - 1;
    proof {
        lemma_last_pair_at(s@, pair_at as int);
    }
    if pair_at <= f {
        return None;
    }
    let mut p: usize = n;
    while p > 0 && s.get_char(p - 1) != ')'
        invariant
            p <= n,
            n == s@.len(),
            forall|j: int| p <= j < n ==> (#[trigger] s@[j]) != ')',
        decreases p,
    {
        p = p - 1;
    }
    if p == 0 {
        proof {
            lemma_last_close_none(s@);
        }
        return None;
    }
    let close_at = p - 1;
    proof {
        lemma_last_close_at(s@, close_at as int);
    }
    if close_at < pair_at + 2 {
        return None;
    }
    Some(s.substring_char(pair_at + 2, close_at).to_owned())
}

// ---------------------------------------------------------------------------
// Artifact file names: `amazon-corretto-<version>-<os>-<arch>[-jdk|-jre].<ext>`.
// ---------------------------------------------------------------------------

/// A digit or a dot: the version part's characters.
pub open spec fn spec_is_numdot(c: char) -> bool {
    spec_is_digit(c) || c == '.'
}

fn is_numdot(c: char) -> (r: bool)
    ensures
        r == spec_is_numdot(c),
{
    is_digit(c) || c == '.'
}

pub open spec fn spec_numdot_end(s: Seq<char>, i: int) -> int
    decreases s.len() - i,
{
    if i < 0 || i >= s.len() {
        if i < 0 {
            0
        } else {
            s.len() as int
        }
    } else if !spec_is_numdot(s[i]) {
        i
    } else {
        spec_numdot_end(s, i + 1)
    }
}

proof fn lemma_numdot_end_at(s: Seq<char>, i: int, e: int)
    requires
        0 <= i <= e <= s.len(),
        forall|j: int| i <= j < e ==> spec_is_numdot(#[trigger] s[j]),
        e < s.len() ==> !spec_is_numdot(s[e]),
    ensures
        spec_numdot_end(s, i) == e,
    decreases e - i,
{
    if i < e {
        lemma_numdot_end_at(s, i + 1, e);
    }
}

fn scan_numdot(s: &str, from: usize) -> (e: usize)
    requires
        from <= s@.len(),
    ensures
        from <= e <= s@.len(),
        e == spec_numdot_end(s@, from as int),
{
    let n = s.unicode_len();
    let mut e: usize = from;
    while e < n && is_numdot(s.get_char(e))
        invariant
            from <= e <= n,
            n == s@.len(),
            forall|j: int| from <= j < e ==> spec_is_numdot(#[trigger] s@[j]),
        decreases n - e,
    {
        e = e + 1;
    }
    proof {
        lemma_numdot_end_at(s@, from as int, e as int);
    }
    e
}

/// Neither a hyphen nor a dot: the os and arch parts' characters.
pub open spec fn spec_is_plainch(c: char) -> bool {
    c != '-' && c != '.'
}

fn is_plainch(c: char) -> (r: bool)
    ensures
        r == spec_is_plainch(c),
{
    c != '-' && c != '.'
}

pub open spec fn spec_plain_end(s: Seq<char>, i: int) -> int
    decreases s.len() - i,
{
    if i < 0 || i >= s.len() {
        if i < 0 {
            0
        } else {
            s.len() as int
        }
    } else if !spec_is_plainch(s[i]) {
        i
    } else {
        spec_plain_end(s, i + 1)
    }
}

proof fn lemma_plain_end_at(s: Seq<char>, i: int, e: int)
    requires
        0 <= i <= e <= s.len(),
        forall|j: int| i <= j < e ==> spec_is_plainch(#[trigger] s[j]),
        e < s.len() ==> !spec_is_plainch(s[e]),
    ensures
        spec_plain_end(s, i) == e,
    decreases e - i,
{
    if i < e {
        lemma_plain_end_at(s, i + 1, e);
    }
}

fn scan_plain(s: &str, from: usize) -> (e: usize)
    requires
        from <= s@.len(),
    ensures
        from <= e <= s@.len(),
        e == spec_plain_end(s@, from as int),
{
    let n = s.unicode_len();
    let mut e: usize = from;
    while e < n && is_plainch(s.get_char(e))
        invariant
            from <= e <= n,
            n == s@.len(),
            forall|j: int| from <= j < e ==> spec_is_plainch(#[trigger] s@[j]),
        decreases n - e,
    {
        e = e + 1;
    }
    proof {
        lemma_plain_end_at(s@, from as int, e as int);
    }
    e
}

/// The fields a Corretto artifact file name yields, as
/// (os, arch, extension).
pub open spec fn spec_corretto_file(name: Seq<char>) -> Option<(Seq<char>, Seq<char>, Seq<char>)> {
    let prefix = "amazon-corretto-"@;
    if !crate::strutil::spec_starts_with(name, prefix) {
        None
    } else {
        let p0 = prefix.len() as int;
        let ve = spec_numdot_end(name, p0);
        if ve == p0 || !(ve < name.len() && name[ve] == '-') {
            None
        } else {
            let oe = spec_plain_end(name, ve + 1);
            if oe == ve + 1 || !(oe < name.len() && name[oe] == '-') {
                None
            } else {
                let ae = spec_plain_end(name, oe + 1);
                if ae == oe + 1 || ae >= name.len() {
                    None
                } else if name[ae] == '.' {
                    Some((name.subrange(ve + 1, oe), name.subrange(oe + 1, ae), name.skip(ae + 1)))
                } else if name[ae] == '-' && ae + 4 < name.len() && name[ae + 4] == '.' && (
                name.subrange(ae + 1, ae + 4) == "jdk"@ || name.subrange(ae + 1, ae + 4)
                    == "jre"@) {
                    Some(
                        (
                            name.subrange(ve + 1, oe),
                            name.subrange(oe + 1, ae),
                            name.skip(ae + 5),
                        ),
                    )
                } else {
                    None
                }
            }
        }
    }
}

/// Reads one artifact file name's fields.
pub fn parse_corretto_file(name: &str) -> (r: Option<(String, String, String)>)
    ensures
        (r is Some) == (spec_corretto_file(name@) is Some),
        r matches Some(t) ==> spec_corretto_file(name@) == Some((t.0@, t.1@, t.2@)),
{
    let n = name.unicode_len();
    if !crate::strutil::starts_with(name, "amazon-corretto-") {
        return None;
    }
    proof {
        reveal_strlit("amazon-corretto-");
        assert("amazon-corretto-"@.len() == 16);
    }
    let p0: usize = 16;
    let ve = scan_numdot(name, p0);
    if ve == p0 || !(ve < n && name.get_char(ve) == '-') {
        return None;
    }
    let oe = scan_plain(name, ve + 1);
    if oe == ve + 1 || !(oe < n && name.get_char(oe) == '-') {
        return None;
    }
    let ae = scan_plain(name, oe + 1);
    if ae == oe + 1 || ae >= n {
        return None;
    }
    let os = name.substring_char(ve + 1, oe).to_owned();
    let arch = name.substring_char(oe + 1, ae).to_owned();
    if name.get_char(ae) == '.' {
        let ext = name.substring_char(ae + 1, n).to_owned();
        proof {
            assert(name@.subrange(ae + 1, n as int) =~= name@.skip(ae + 1));
        }
        return Some((os, arch, ext));
    }
    if name.get_char(ae) == '-' && n - ae > 4 && name.get_char(ae + 4) == '.' {
        let tag = name.substring_char(ae + 1, ae + 4);
        proof {
            reveal_strlit("jdk");
            reveal_strlit("jre");
            assert("jdk"@.len() == 3 && "jre"@.len() == 3);
        }
        if str_eq(tag, "jdk") || str_eq(tag, "jre") {
            let ext = name.substring_char(ae + 5, n).to_owned();
            proof {
                assert(name@.subrange(ae + 5, n as int) =~= name@.skip(ae + 5));
            }
            return Some((os, arch, ext));
        }
        return None;
    }
    None
}

// ---------------------------------------------------------------------------
// Rows and bodies.
// ---------------------------------------------------------------------------

/// The fields a download link yields, as (version, os, arch, kind): the
/// link's last two path segments are the version and the file name, and
/// the file name's fields must parse to an installable kind.
pub open spec fn spec_corretto_url_package(href: Seq<char>) -> Option<
    (Seq<char>, Seq<char>, Seq<char>, PackageKind),
> {
    let parts = spec_split(href, '/');
    if parts.len() < 2 {
        None
    } else {
        match spec_corretto_file(parts.last()) {
            Some(f) => {
                let kind = crate::java::spec_kind_of(f.2);
                if kind == PackageKind::Unknown {
                    None
                } else {
                    Some((parts[parts.len() - 2], f.0, f.1, kind))
                }
            },
            None => None,
        }
    }
}

/// Builds one package row from a download link and the row's digests.
pub fn parse_corretto_url(href: &str, checksum_md5: Option<String>, checksum_sha256: Option<
    String,
>) -> (r: Option<JavaPackage>)
    ensures
        (r is Some) == (spec_corretto_url_package(href@) is Some),
        r matches Some(p) ==> (spec_corretto_url_package(href@) matches Some(f) && {
            &&& p.version@ == f.0
            &&& p.url@ == href@
            &&& p.os@ == f.1
            &&& p.arch@ == f.2
            &&& p.kind == f.3
            &&& p.checksum_url is None
            &&& p.checksum_md5 == checksum_md5
            &&& p.checksum_sha256 == checksum_sha256
        }),
{
    let parts = split_char(href, '/');
    proof {
        assert(parts.deep_view().len() == parts@.len());
    }
    if parts.len() < 2 {
        return None;
    }
    let version = parts[parts.len() - 2].clone();
    let file_name = parts[parts.len() - 1].clone();
    proof {
        assert(parts.deep_view()[parts@.len() - 2] == parts@[parts@.len() - 2]@);
        assert(parts.deep_view()[parts@.len() - 1] == parts@[parts@.len() - 1]@);
        assert(parts.deep_view().last() == parts.deep_view()[parts@.len() - 1]);
    }
    let (os, arch, ext) = match parse_corretto_file(file_name.as_str()) {
        Some(t) => t,
        None => {
            return None;
        },
    };
    let kind = PackageKind::from_str(ext.as_str());
    if matches!(kind, PackageKind::Unknown) {
        return None;
    }
    Some(
        JavaPackage {
            version,
            url: href.to_owned(),
            os,
            arch,
            kind,
            checksum_url: None,
            checksum_md5,
            checksum_sha256,
        },
    )
}

/// The package fields one body row yields, as
/// (version, url, os, arch, kind, md5, sha): the row must split into at
/// least four non-empty cells, the second reading exactly `JDK`, with a
/// link cell, a checksum cell, and a file name of an installable kind.
pub open spec fn spec_corretto_row(line: Seq<char>) -> Option<
    (Seq<char>, Seq<char>, Seq<char>, Seq<char>, PackageKind, Seq<char>, Option<Seq<char>>),
> {
    let segs = spec_row_segments(spec_split(line, '|'));
    if segs.len() < 4 || segs[1] != "JDK"@ {
        None
    } else {
        match spec_link_cell(segs[2]) {
            Some(url) => match spec_checksum_cell(segs[3]) {
                Some(cs) => match spec_corretto_url_package(url) {
                    Some(f) => Some((f.0, url, f.1, f.2, f.3, cs.0, cs.1)),
                    None => None,
                },
                None => None,
            },
            None => None,
        }
    }
}

/// The packages a body's rows yield, in row order.
pub open spec fn spec_corretto_packages(lines: Seq<Seq<char>>) -> Seq<
    (Seq<char>, Seq<char>, Seq<char>, Seq<char>, PackageKind, Seq<char>, Option<Seq<char>>),
>
    decreases lines.len(),
{
    if lines.len() == 0 {
        Seq::empty()
    } else {
        let rest = spec_corretto_packages(lines.drop_first());
        match spec_corretto_row(lines[0]) {
            Some(row) => seq![row] + rest,
            None => rest,
        }
    }
}

proof fn lemma_corretto_packages_push(lines: Seq<Seq<char>>, e: Seq<char>)
    ensures
        spec_corretto_packages(lines.push(e)) == spec_corretto_packages(lines)
            + spec_corretto_packages(seq![e]),
    decreases lines.len(),
{
    if lines.len() == 0 {
        assert(lines.push(e)[0] == e);
        assert(lines.push(e).drop_first() =~= Seq::<Seq<char>>::empty());
        assert(seq![e][0] == e);
        assert(seq![e].drop_first() =~= Seq::<Seq<char>>::empty());
        assert(spec_corretto_packages(lines) + spec_corretto_packages(seq![e])
            =~= spec_corretto_packages(seq![e]));
    } else {
        assert(lines.push(e)[0] == lines[0]);
        assert(lines.push(e).drop_first() =~= lines.drop_first().push(e));
        lemma_corretto_packages_push(lines.drop_first(), e);
        match spec_corretto_row(lines[0]) {
            Some(row) => {
                assert(seq![row] + (spec_corretto_packages(lines.drop_first())
                    + spec_corretto_packages(seq![e])) =~= (seq![row] + spec_corretto_packages(
                    lines.drop_first(),
                )) + spec_corretto_packages(seq![e]));
            },
            None => {
            },
        }
    }
}

/// A built package carries exactly one row's fields.
pub open spec fn spec_pkg_of_row(
    p: JavaPackage,
    row: (Seq<char>, Seq<char>, Seq<char>, Seq<char>, PackageKind, Seq<char>, Option<Seq<char>>),
) -> bool {
    &&& p.version@ == row.0
    &&& p.url@ == row.1
    &&& p.os@ == row.2
    &&& p.arch@ == row.3
    &&& p.kind == row.4
    &&& (p.checksum_md5 matches Some(d) && d@ == row.5)
    &&& ((p.checksum_sha256 is Some) == (row.6 is Some))
    &&& (p.checksum_sha256 matches Some(x) ==> row.6 == Some(x@))
    &&& p.checksum_url is None
}

/// Reads one release body: its Markdown-like rows whose second cell reads
/// `JDK` yield packages from the link and checksum cells, in row order; a
/// body with no such row, or whose first package's version the vendor's
/// grammar rejects, yields nothing.
pub fn parse_corretto_release_body(body: &str) -> (r: Option<JavaVersion>)
    ensures
        (r is Some) == ({
            let rows = spec_corretto_packages(spec_split_crlf(body@));
            rows.len() > 0 && (spec_corretto_version_text(spec_vendor_trim(rows[0].0, "corretto"@))
                matches Some(tx) && spec_parse_java_semver(tx) is Some)
        }),
        r matches Some(v) ==> {
            let rows = spec_corretto_packages(spec_split_crlf(body@));
            &&& v.vendor.name@ == "corretto"@
            &&& v.version@ == rows[0].0
            &&& (spec_corretto_version_text(spec_vendor_trim(rows[0].0, "corretto"@)) matches Some(
                tx,
            ) && Some(v.sem_version@) == spec_parse_java_semver(tx))
            &&& v.packages@.len() == rows.len()
            &&& forall|i: int|
                0 <= i < rows.len() ==> spec_pkg_of_row(#[trigger] v.packages@[i], rows[i])
        },
{
    proof {
        reveal_strlit("JDK");
    }
    let lines = split_crlf(body);
    let ghost ls = spec_split_crlf(body@);
    let mut packages: Vec<JavaPackage> = Vec::new();
    let nl = lines.len();
    let mut i: usize = 0;
    proof {
        assert(ls.take(0) =~= Seq::<Seq<char>>::empty());
    }
    while i < nl
        invariant
            i <= nl,
            nl == lines@.len(),
            ls == lines.deep_view(),
            packages@.len() == spec_corretto_packages(ls.take(i as int)).len(),
            forall|j: int|
                0 <= j < packages@.len() ==> spec_pkg_of_row(
                    #[trigger] packages@[j],
                    spec_corretto_packages(ls.take(i as int))[j],
                ),
        decreases nl - i,
    {
        let ghost old_ps = packages@;
        proof {
            assert(ls[i as int] == lines@[i as int]@);
            assert(ls.take(i + 1) =~= ls.take(i as int).push(ls[i as int]));
            lemma_corretto_packages_push(ls.take(i as int), ls[i as int]);
            assert(seq![ls[i as int]][0] == ls[i as int]);
            assert(seq![ls[i as int]].drop_first() =~= Seq::<Seq<char>>::empty());
            assert(spec_corretto_packages(Seq::<Seq<char>>::empty()) =~= Seq::<
                (Seq<char>, Seq<char>, Seq<char>, Seq<char>, PackageKind, Seq<char>, Option<
                    Seq<char>,
                >),
            >::empty());
        }
        let line = lines[i].as_str();
        i = i + 1;
        let segs = row_segments(line);
        let keep = if segs.len() < 4 {
            false
        } else {
            str_eq(segs[1].as_str(), "JDK")
        };
        if !keep {
            proof {
                if segs@.len() >= 4 {
                    assert(segs.deep_view()[1] == segs@[1]@);
                }
            }
            continue;
        }
        proof {
            assert(segs.deep_view()[1] == segs@[1]@);
            assert(segs.deep_view()[2] == segs@[2]@);
            assert(segs.deep_view()[3] == segs@[3]@);
        }
        let url = match parse_link_cell(segs[2].as_str()) {
            Some(u) => u,
            None => {
                continue;
            },
        };
        let (md5, sha) = match parse_checksum_cell(segs[3].as_str()) {
            Some(p) => p,
            None => {
                continue;
            },
        };
        match parse_corretto_url(url.as_str(), Some(md5), sha) {
            Some(p) => {
                packages.push(p);
            },
            None => {
            },
        }
    }
    proof {
        assert(ls.take(nl as int) =~= ls);
    }
    if packages.len() == 0 {
        return None;
    }
    JavaVersion::from_corretto(packages)
}

/// Whether a repository name is a Corretto major-version repository:
/// `corretto-` followed only by digits.
pub fn is_corretto_repo_name(s: &str) -> (r: bool)
    ensures
        r == (crate::strutil::spec_starts_with(s@, "corretto-"@) && s@.len() > "corretto-"@.len()
            && spec_all_digits_from(s@, "corretto-"@.len() as int)),
{
    proof {
        reveal_strlit("corretto-");
        assert("corretto-"@.len() == 9);
    }
    let n = s.unicode_len();
    if !crate::strutil::starts_with(s, "corretto-") {
        return false;
    }
    if n <= 9 {
        return false;
    }
    let mut i: usize = 9;
    while i < n
        invariant
            9 <= i <= n,
            n == s@.len(),
            "corretto-"@.len() == 9,
            crate::strutil::spec_starts_with(s@, "corretto-"@),
            forall|j: int| 9 <= j < i ==> spec_is_digit(#[trigger] s@[j]),
        decreases n - i,
    {
        if !is_digit(s.get_char(i)) {
            return false;
        }
        i = i + 1;
    }
    true
}

/// Every character from `p` on is a digit.
pub open spec fn spec_all_digits_from(s: Seq<char>, p: int) -> bool {
    forall|j: int| p <= j < s.len() ==> spec_is_digit(#[trigger] s[j])
}

} // verus!
