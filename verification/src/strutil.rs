//! Character and string helpers shared by the parsers: character classes,
//! case folding, substring search, splitting, trimming, and decimal numerals.

use vstd::prelude::*;

verus! {

pub open spec fn spec_is_digit(c: char) -> bool {
    ('0' as u32) <= (c as u32) && (c as u32) <= ('9' as u32)
}

pub open spec fn spec_digit_val(c: char) -> nat {
    ((c as u32) - ('0' as u32)) as nat
}

/// Characters allowed in a semantic-version identifier.
pub open spec fn spec_is_ident_char(c: char) -> bool {
    spec_is_digit(c)
    || (('a' as u32) <= (c as u32) && (c as u32) <= ('z' as u32))
    || (('A' as u32) <= (c as u32) && (c as u32) <= ('Z' as u32))
    || c == '-'
}

pub fn is_digit(c: char) -> (r: bool)
    ensures
        r == spec_is_digit(c),
{
    ('0' as u32) <= (c as u32) && (c as u32) <= ('9' as u32)
}

pub fn is_ident_char(c: char) -> (r: bool)
    ensures
        r == spec_is_ident_char(c),
{
    is_digit(c)
    || (('a' as u32) <= (c as u32) && (c as u32) <= ('z' as u32))
    || (('A' as u32) <= (c as u32) && (c as u32) <= ('Z' as u32))
    || c == '-'
}

/// ASCII lower-casing of one character; other characters are unchanged.
pub open spec fn spec_lower_char(c: char) -> char {
    if ('A' as u32) <= (c as u32) && (c as u32) <= ('Z' as u32) {
        ((c as u32) + 32) as char
    } else {
        c
    }
}

pub open spec fn spec_lower(s: Seq<char>) -> Seq<char> {
    s.map_values(|c: char| spec_lower_char(c))
}

/// Relies on char::to_ascii_lowercase: 'A'..='Z' map to 'a'..='z' (a code
/// point shift of 32); every other character comes back unchanged.
#[verifier::external_body]
pub fn lower_char(c: char) -> (r: char)
    ensures
        r == spec_lower_char(c),
{
    c.to_ascii_lowercase()
}

/// ASCII lower-cased copy of a string.
pub fn lower(s: &str) -> (r: String)
    ensures
        r@ == spec_lower(s@),
{
    let n = s.unicode_len();
    let mut r = String::new();
    let mut i: usize = 0;
    while i < n
        invariant
            i <= n,
            n == s@.len(),
            r@ =~= spec_lower(s@.take(i as int)),
        decreases n - i,
    {
        let c = lower_char(s.get_char(i));
        push_char(&mut r, c);
        proof {
            assert(spec_lower(s@.take(i + 1)) =~= spec_lower(s@.take(i as int)).push(spec_lower_char(s@[i as int])));
        }
        i = i + 1;
    }
    proof {
        assert(s@.take(n as int) =~= s@);
    }
    r
}

/// Relies on String::push: appends the given character to the end of the
/// string.
#[verifier::external_body]
pub fn push_char(s: &mut String, c: char)
    ensures
        final(s)@ == old(s)@.push(c),
{
    s.push(c);
}

/// Index of the first occurrence of `sep` in `s`, or -1 if absent.
pub open spec fn spec_find(s: Seq<char>, sep: char) -> int
    decreases s.len(),
{
    if s.len() == 0 {
        -1
    } else if s[0] == sep {
        0
    } else {
        let r = spec_find(s.drop_first(), sep);
        if r < 0 {
            -1
        } else {
            r + 1
        }
    }
}

pub proof fn lemma_find_props(s: Seq<char>, sep: char)
    ensures
        spec_find(s, sep) < 0 ==> forall|j: int| 0 <= j < s.len() ==> s[j] != sep,
        spec_find(s, sep) >= 0 ==> {
            &&& spec_find(s, sep) < s.len()
            &&& s[spec_find(s, sep)] == sep
            &&& forall|j: int| 0 <= j < spec_find(s, sep) ==> s[j] != sep
        },
    decreases s.len(),
{
    if s.len() > 0 && s[0] != sep {
        lemma_find_props(s.drop_first(), sep);
        assert forall|j: int| 0 <= j < spec_find(s, sep) implies s[j] != sep by {
            if j > 0 {
                assert(s.drop_first()[j - 1] == s[j]);
            }
        }
        if spec_find(s, sep) < 0 {
            assert forall|j: int| 0 <= j < s.len() implies s[j] != sep by {
                if j > 0 {
                    assert(s.drop_first()[j - 1] == s[j]);
                }
            }
        }
    }
}

/// The unique position that scanning finds: everything before `k` is not the
/// separator, and `s[k]` is.
pub proof fn lemma_find_at(s: Seq<char>, sep: char, k: int)
    requires
        0 <= k < s.len(),
        s[k] == sep,
        forall|j: int| 0 <= j < k ==> s[j] != sep,
    ensures
        spec_find(s, sep) == k,
    decreases s.len(),
{
    if k > 0 {
        assert forall|j: int| 0 <= j < k - 1 implies s.drop_first()[j] != sep by {
            assert(s.drop_first()[j] == s[j + 1]);
        }
        assert(s.drop_first()[k - 1] == s[k]);
        lemma_find_at(s.drop_first(), sep, k - 1);
    }
}

pub proof fn lemma_find_none(s: Seq<char>, sep: char)
    requires
        forall|j: int| 0 <= j < s.len() ==> s[j] != sep,
    ensures
        spec_find(s, sep) < 0,
    decreases s.len(),
{
    if s.len() > 0 {
        assert forall|j: int| 0 <= j < s.drop_first().len() implies s.drop_first()[j] != sep by {
            assert(s.drop_first()[j] == s[j + 1]);
        }
        lemma_find_none(s.drop_first(), sep);
    }
}

/// Splitting at every occurrence of `sep`; an empty input gives one empty
/// token, as `str::split` does.
pub open spec fn spec_split(s: Seq<char>, sep: char) -> Seq<Seq<char>>
    decreases s.len(),
    via spec_split_decreases
{
    let i = spec_find(s, sep);
    if i < 0 {
        seq![s]
    } else {
        seq![s.take(i)] + spec_split(s.skip(i + 1), sep)
    }
}

#[via_fn]
proof fn spec_split_decreases(s: Seq<char>, sep: char) {
    lemma_find_props(s, sep);
}

pub fn split_char(s: &str, sep: char) -> (r: Vec<String>)
    ensures
        r.deep_view() == spec_split(s@, sep),
{
    let n = s.unicode_len();
    let mut r: Vec<String> = Vec::new();
    let mut start: usize = 0;
    let mut i: usize = 0;
    proof {
        assert(s@.skip(0) =~= s@);
        assert(r.deep_view() + spec_split(s@, sep) =~= spec_split(s@, sep));
    }
    while i < n
        invariant
            start <= i <= n,
            n == s@.len(),
            forall|j: int| start <= j < i ==> s@[j] != sep,
            spec_split(s@, sep) == r.deep_view() + spec_split(s@.skip(start as int), sep),
        decreases n - i,
    {
        if s.get_char(i) == sep {
            let tok = s.substring_char(start, i).to_owned();
            let ghost dv = r.deep_view();
            proof {
                let rest = s@.skip(start as int);
                assert forall|j: int| 0 <= j < i - start implies rest[j] != sep by {
                    assert(rest[j] == s@[start + j]);
                }
                assert(rest[i - start] == s@[i as int]);
                lemma_find_at(rest, sep, i - start);
                assert(rest.take(i - start) =~= s@.subrange(start as int, i as int));
                assert(rest.skip(i - start + 1) =~= s@.skip(i + 1));
            }
            r.push(tok);
            proof {
                assert(r.deep_view() =~= dv.push(tok@));
                assert(dv.push(tok@) + spec_split(s@.skip(i + 1), sep) =~= dv + spec_split(
                    s@.skip(start as int),
                    sep,
                ));
            }
            start = i + 1;
        }
        i = i + 1;
    }
    let tok = s.substring_char(start, n).to_owned();
    let ghost dv = r.deep_view();
    proof {
        let rest = s@.skip(start as int);
        assert forall|j: int| 0 <= j < rest.len() implies rest[j] != sep by {
            assert(rest[j] == s@[start + j]);
        }
        lemma_find_none(rest, sep);
        assert(rest =~= s@.subrange(start as int, n as int));
    }
    r.push(tok);
    proof {
        assert(r.deep_view() =~= dv.push(tok@));
        assert(dv.push(tok@) =~= dv + spec_split(s@.skip(start as int), sep));
    }
    r
}

/// Character-wise equality of two string slices.
pub fn str_eq(a: &str, b: &str) -> (r: bool)
    ensures
        r == (a@ == b@),
{
    let na = a.unicode_len();
    let nb = b.unicode_len();
    if na != nb {
        proof {
            assert(a@.len() != b@.len());
        }
        return false;
    }
    let mut i: usize = 0;
    while i < na
        invariant
            i <= na,
            na == a@.len(),
            na == b@.len(),
            forall|j: int| 0 <= j < i ==> a@[j] == b@[j],
        decreases na - i,
    {
        if a.get_char(i) != b.get_char(i) {
            return false;
        }
        i = i + 1;
    }
    proof {
        assert(a@ =~= b@);
    }
    true
}

pub open spec fn spec_starts_with(s: Seq<char>, p: Seq<char>) -> bool {
    p.len() <= s.len() && s.take(p.len() as int) == p
}

pub open spec fn spec_ends_with(s: Seq<char>, p: Seq<char>) -> bool {
    p.len() <= s.len() && s.skip(s.len() - p.len()) == p
}

pub fn starts_with(s: &str, p: &str) -> (r: bool)
    ensures
        r == spec_starts_with(s@, p@),
{
    let n = s.unicode_len();
    let m = p.unicode_len();
    if m > n {
        return false;
    }
    let mut i: usize = 0;
    while i < m
        invariant
            i <= m <= n,
            n == s@.len(),
            m == p@.len(),
            forall|j: int| 0 <= j < i ==> s@[j] == p@[j],
        decreases m - i,
    {
        if s.get_char(i) != p.get_char(i) {
            proof {
                assert(s@.take(m as int)[i as int] != p@[i as int]);
            }
            return false;
        }
        i = i + 1;
    }
    proof {
        assert(s@.take(m as int) =~= p@);
    }
    true
}

pub fn ends_with(s: &str, p: &str) -> (r: bool)
    ensures
        r == spec_ends_with(s@, p@),
{
    let n = s.unicode_len();
    let m = p.unicode_len();
    if m > n {
        return false;
    }
    let off: usize = n - m;
    let mut i: usize = 0;
    while i < m
        invariant
            i <= m <= n,
            off == n - m,
            n == s@.len(),
            m == p@.len(),
            forall|j: int| 0 <= j < i ==> s@[off + j] == p@[j],
        decreases m - i,
    {
        if s.get_char(off + i) != p.get_char(i) {
            proof {
                assert(s@.skip(off as int)[i as int] != p@[i as int]);
            }
            return false;
        }
        i = i + 1;
    }
    proof {
        assert(s@.skip(off as int) =~= p@);
    }
    true
}

/// Whether `p` occurs in `s` as a contiguous run starting at `i`.
pub open spec fn spec_match_at(s: Seq<char>, p: Seq<char>, i: int) -> bool {
    0 <= i && i + p.len() <= s.len() && s.subrange(i, i + p.len()) == p
}

pub open spec fn spec_contains(s: Seq<char>, p: Seq<char>) -> bool {
    exists|i: int| spec_match_at(s, p, i)
}

pub fn contains_sub(s: &str, p: &str) -> (r: bool)
    ensures
        r == spec_contains(s@, p@),
{
    let n = s.unicode_len();
    let m = p.unicode_len();
    if m > n {
        return false;
    }
    if m == 0 {
        proof {
            assert(s@.subrange(0, 0) =~= p@);
            assert(spec_match_at(s@, p@, 0));
        }
        return true;
    }
    let mut i: usize = 0;
    while i <= n - m
        invariant
            1 <= m <= n,
            n == s@.len(),
            m == p@.len(),
            i <= n - m + 1,
            forall|k: int| 0 <= k < i ==> !spec_match_at(s@, p@, k),
        decreases n - m + 1 - i,
    {
        let mut j: usize = 0;
        let mut ok = true;
        while j < m
            invariant
                j <= m <= n,
                i + m <= n,
                n == s@.len(),
                m == p@.len(),
                ok ==> forall|t: int| 0 <= t < j ==> s@[i + t] == p@[t],
                !ok ==> !spec_match_at(s@, p@, i as int),
            decreases m - j,
        {
            if s.get_char(i + j) != p.get_char(j) {
                proof {
                    assert(s@.subrange(i as int, i + m)[j as int] == s@[i + j]);
                }
                ok = false;
                j = m;
            } else {
                j = j + 1;
            }
        }
        if ok {
            proof {
                assert(s@.subrange(i as int, i + m) =~= p@);
                assert(spec_match_at(s@, p@, i as int));
            }
            return true;
        }
        i = i + 1;
    }
    proof {
        assert forall|k: int| !spec_match_at(s@, p@, k) by {
            if 0 <= k && k + p@.len() <= s@.len() {
                assert(k < i);
            }
        }
    }
    false
}

/// Case-insensitive (ASCII) literal containment: how a catalog filter matches.
pub fn contains_ci(s: &str, p: &str) -> (r: bool)
    ensures
        r == spec_contains(spec_lower(s@), spec_lower(p@)),
{
    let ls = lower(s);
    let lp = lower(p);
    contains_sub(ls.as_str(), lp.as_str())
}

/// Whitespace as the parsers treat it.
pub open spec fn spec_is_space(c: char) -> bool {
    c == ' ' || c == '\t' || c == '\n' || c == '\r' || c == '\u{b}' || c == '\u{c}'
}

pub fn is_space(c: char) -> (r: bool)
    ensures
        r == spec_is_space(c),
{
    c == ' ' || c == '\t' || c == '\n' || c == '\r' || c == '\u{b}' || c == '\u{c}'
}

pub open spec fn spec_trim_start(s: Seq<char>) -> Seq<char>
    decreases s.len(),
{
    if s.len() > 0 && spec_is_space(s[0]) {
        spec_trim_start(s.drop_first())
    } else {
        s
    }
}

pub open spec fn spec_trim_end(s: Seq<char>) -> Seq<char>
    decreases s.len(),
{
    if s.len() > 0 && spec_is_space(s.last()) {
        spec_trim_end(s.drop_last())
    } else {
        s
    }
}

/// `str::trim` on the whitespace the catalogs use.
pub open spec fn spec_trim(s: Seq<char>) -> Seq<char> {
    spec_trim_end(spec_trim_start(s))
}

proof fn lemma_trim_start_skip(s: Seq<char>, i: int)
    requires
        0 <= i <= s.len(),
        forall|j: int| 0 <= j < i ==> spec_is_space(s[j]),
        i < s.len() ==> !spec_is_space(s[i]),
    ensures
        spec_trim_start(s) == s.skip(i),
    decreases i,
{
    if i == 0 {
        if s.len() > 0 {
            assert(!spec_is_space(s[0]));
        }
        assert(s.skip(0) =~= s);
    } else {
        assert(spec_is_space(s[0]));
        let t = s.drop_first();
        assert forall|j: int| 0 <= j < i - 1 implies spec_is_space(t[j]) by {
            assert(t[j] == s[j + 1]);
        }
        if i - 1 < t.len() {
            assert(t[i - 1] == s[i]);
        }
        lemma_trim_start_skip(t, i - 1);
        assert(t.skip(i - 1) =~= s.skip(i));
    }
}

proof fn lemma_trim_end_take(s: Seq<char>, i: int)
    requires
        0 <= i <= s.len(),
        forall|j: int| i <= j < s.len() ==> spec_is_space(s[j]),
        i > 0 ==> !spec_is_space(s[i - 1]),
    ensures
        spec_trim_end(s) == s.take(i),
    decreases s.len() - i,
{
    if i == s.len() {
        if s.len() > 0 {
            assert(!spec_is_space(s.last()));
        }
        assert(s.take(i) =~= s);
    } else {
        assert(spec_is_space(s.last()));
        let t = s.drop_last();
        lemma_trim_end_take(t, i);
        assert(t.take(i) =~= s.take(i));
    }
}

pub fn trim(s: &str) -> (r: String)
    ensures
        r@ == spec_trim(s@),
{
    let n = s.unicode_len();
    let mut a: usize = 0;
    while a < n && is_space(s.get_char(a))
        invariant
            a <= n,
            n == s@.len(),
            forall|j: int| 0 <= j < a ==> spec_is_space(s@[j]),
        decreases n - a,
    {
        a = a + 1;
    }
    let mut b: usize = n;
    while b > a && is_space(s.get_char(b - 1))
        invariant
            a <= b <= n,
            n == s@.len(),
            forall|j: int| 0 <= j < a ==> spec_is_space(s@[j]),
            forall|j: int| b <= j < n ==> spec_is_space(s@[j]),
        decreases b,
    {
        b = b - 1;
    }
    proof {
        lemma_trim_start_skip(s@, a as int);
        let t = s@.skip(a as int);
        if b == a {
            assert forall|j: int| 0 <= j < t.len() implies spec_is_space(t[j]) by {
                assert(t[j] == s@[a + j]);
            }
            lemma_trim_end_take(t, 0);
        } else {
            assert forall|j: int| b - a <= j < t.len() implies spec_is_space(t[j]) by {
                assert(t[j] == s@[a + j]);
            }
            assert(t[b - a - 1] == s@[b - 1]);
            lemma_trim_end_take(t, b - a);
        }
        assert(t.take(b - a) =~= s@.subrange(a as int, b as int));
    }
    s.substring_char(a, b).to_owned()
}

/// Value of a digit string, most significant digit first.
pub open spec fn spec_num_val(s: Seq<char>) -> nat
    decreases s.len(),
{
    if s.len() == 0 {
        0
    } else {
        spec_num_val(s.drop_last()) * 10 + spec_digit_val(s.last())
    }
}

pub open spec fn spec_all_digits(s: Seq<char>) -> bool {
    forall|j: int| 0 <= j < s.len() ==> spec_is_digit(#[trigger] s[j])
}

/// Parses a run of digits as a `u64`; `None` when the value overflows.
pub fn parse_u64(s: &str) -> (r: Option<u64>)
    requires
        spec_all_digits(s@),
        s@.len() > 0,
    ensures
        r is Some <==> spec_num_val(s@) <= u64::MAX,
        r is Some ==> r->0 == spec_num_val(s@),
{
    let n = s.unicode_len();
    let mut acc: u64 = 0;
    let mut i: usize = 0;
    while i < n
        invariant
            i <= n,
            n == s@.len(),
            spec_all_digits(s@),
            acc == spec_num_val(s@.take(i as int)),
        decreases n - i,
    {
        let c = s.get_char(i);
        let d: u64 = ((c as u32) - ('0' as u32)) as u64;
        let wide: u128 = (acc as u128) * 10 + (d as u128);
        proof {
            assert(s@.take(i + 1).drop_last() =~= s@.take(i as int));
            assert(s@.take(i + 1).last() == s@[i as int]);
        }
        if wide > u64::MAX as u128 {
            proof {
                lemma_num_val_mono_prefix(s@, i + 1);
            }
            return None;
        }
        acc = wide as u64;
        i = i + 1;
    }
    proof {
        assert(s@.take(n as int) =~= s@);
    }
    Some(acc)
}

/// A longer (or equal) digit prefix never has a smaller value.
proof fn lemma_num_val_mono_prefix(s: Seq<char>, i: int)
    requires
        0 <= i <= s.len(),
    ensures
        spec_num_val(s.take(i)) <= spec_num_val(s),
    decreases s.len() - i,
{
    if i < s.len() {
        lemma_num_val_mono_prefix(s, i + 1);
        assert(s.take(i + 1).drop_last() =~= s.take(i));
        assert(spec_num_val(s.take(i)) <= spec_num_val(s.take(i + 1)));
    } else {
        assert(s.take(i) =~= s);
    }
}

/// A blank in a digest listing: space or tab.
pub open spec fn spec_is_blank(c: char) -> bool {
    c == ' ' || c == '\t'
}

pub fn is_blank(c: char) -> (r: bool)
    ensures
        r == spec_is_blank(c),
{
    c == ' ' || c == '\t'
}

/// End of the run of non-blank characters that starts at `i`.
pub open spec fn spec_word_end(s: Seq<char>, i: int) -> int
    decreases s.len() - i,
{
    if i < 0 || i >= s.len() {
        if i < 0 {
            0
        } else {
            s.len() as int
        }
    } else if spec_is_blank(s[i]) {
        i
    } else {
        spec_word_end(s, i + 1)
    }
}

proof fn lemma_word_end_at(s: Seq<char>, i: int, e: int)
    requires
        0 <= i <= e <= s.len(),
        forall|j: int| i <= j < e ==> !spec_is_blank(#[trigger] s[j]),
        e < s.len() ==> spec_is_blank(s[e]),
    ensures
        spec_word_end(s, i) == e,
    decreases e - i,
{
    if i < e {
        lemma_word_end_at(s, i + 1, e);
    }
}

/// The blank-separated words of `s`, in order, none empty.
pub open spec fn spec_words(s: Seq<char>) -> Seq<Seq<char>>
    decreases s.len(),
    via spec_words_decreases
{
    if s.len() == 0 {
        Seq::empty()
    } else if spec_is_blank(s[0]) {
        spec_words(s.drop_first())
    } else {
        let e = spec_word_end(s, 0);
        seq![s.take(e)] + spec_words(s.skip(e))
    }
}

#[via_fn]
proof fn spec_words_decreases(s: Seq<char>) {
    if s.len() > 0 && !spec_is_blank(s[0]) {
        lemma_word_end_bounds(s, 0);
    }
}

proof fn lemma_word_end_bounds(s: Seq<char>, i: int)
    requires
        0 <= i <= s.len(),
    ensures
        i <= spec_word_end(s, i) <= s.len(),
        i < s.len() && !spec_is_blank(s[i]) ==> i < spec_word_end(s, i),
    decreases s.len() - i,
{
    if i < s.len() && !spec_is_blank(s[i]) {
        lemma_word_end_bounds(s, i + 1);
    }
}

/// Splits a line into its blank-separated words.
pub fn words(s: &str) -> (r: Vec<String>)
    ensures
        r.deep_view() == spec_words(s@),
{
    let n = s.unicode_len();
    let mut r: Vec<String> = Vec::new();
    let mut i: usize = 0;
    proof {
        assert(s@.skip(0) =~= s@);
        assert(r.deep_view() + spec_words(s@) =~= spec_words(s@));
    }
    while i < n
        invariant
            i <= n,
            n == s@.len(),
            spec_words(s@) == r.deep_view() + spec_words(s@.skip(i as int)),
        decreases n - i,
    {
        if is_blank(s.get_char(i)) {
            proof {
                assert(s@.skip(i as int)[0] == s@[i as int]);
                assert(s@.skip(i as int).drop_first() =~= s@.skip(i + 1));
            }
            i = i + 1;
        } else {
            let mut e: usize = i;
            while e < n && !is_blank(s.get_char(e))
                invariant
                    i <= e <= n,
                    n == s@.len(),
                    forall|j: int| i <= j < e ==> !spec_is_blank(#[trigger] s@[j]),
                decreases n - e,
            {
                e = e + 1;
            }
            let tok = s.substring_char(i, e).to_owned();
            let ghost dv = r.deep_view();
            let ghost rest = s@.skip(i as int);
            proof {
                assert forall|j: int| 0 <= j < e - i implies !spec_is_blank(#[trigger] rest[j]) by {
                    assert(rest[j] == s@[i + j]);
                }
                if e < n {
                    assert(rest[e - i] == s@[e as int]);
                }
                lemma_word_end_at(rest, 0, e - i);
                assert(rest[0] == s@[i as int]);
                assert(rest.take(e - i) =~= s@.subrange(i as int, e as int));
                assert(rest.skip(e - i) =~= s@.skip(e as int));
            }
            r.push(tok);
            proof {
                assert(r.deep_view() =~= dv.push(tok@));
                assert(dv.push(tok@) + spec_words(s@.skip(e as int)) =~= dv + spec_words(rest));
            }
            i = e;
        }
    }
    proof {
        assert(s@.skip(n as int) =~= Seq::<char>::empty());
        assert(r.deep_view() + spec_words(s@.skip(n as int)) =~= r.deep_view());
    }
    r
}

pub open spec fn spec_digit_char(d: nat) -> char {
    if d == 0 {
        '0'
    } else if d == 1 {
        '1'
    } else if d == 2 {
        '2'
    } else if d == 3 {
        '3'
    } else if d == 4 {
        '4'
    } else if d == 5 {
        '5'
    } else if d == 6 {
        '6'
    } else if d == 7 {
        '7'
    } else if d == 8 {
        '8'
    } else {
        '9'
    }
}

/// Decimal numeral of `n`, most significant digit first.
pub open spec fn spec_dec(n: nat) -> Seq<char>
    decreases n,
{
    if n < 10 {
        seq![spec_digit_char(n)]
    } else {
        spec_dec(n / 10).push(spec_digit_char(n % 10))
    }
}

fn digit_char(d: u64) -> (r: char)
    requires
        d < 10,
    ensures
        r == spec_digit_char(d as nat),
{
    if d == 0 {
        '0'
    } else if d == 1 {
        '1'
    } else if d == 2 {
        '2'
    } else if d == 3 {
        '3'
    } else if d == 4 {
        '4'
    } else if d == 5 {
        '5'
    } else if d == 6 {
        '6'
    } else if d == 7 {
        '7'
    } else if d == 8 {
        '8'
    } else {
        '9'
    }
}

/// Renders `n` in decimal.
pub fn dec_u64(n: u64) -> (r: String)
    ensures
        r@ == spec_dec(n as nat),
    decreases n,
{
    if n < 10 {
        let mut r = String::new();
        push_char(&mut r, digit_char(n));
        proof {
            assert(r@ =~= spec_dec(n as nat));
        }
        r
    } else {
        let mut r = dec_u64(n / 10);
        push_char(&mut r, digit_char(n % 10));
        r
    }
}

} // verus!
