//! The canonical ordering model: every release, whatever its source wrote,
//! is reduced to a `SemVer` tuple, and all ordering and range matching go
//! through the precedence relation defined here.

use vstd::prelude::*;
use crate::strutil::{
    spec_all_digits, spec_digit_val, spec_is_digit, spec_num_val, spec_split, spec_dec,
    split_char, str_eq, is_digit, push_char, dec_u64,
};

verus! {

/// One release's ordering tuple: major, minor and patch numbers, a
/// prerelease tag ("" when none) and build metadata ("" when none, never
/// ordered).
#[derive(Debug, Clone, PartialEq, Eq)]
pub struct SemVer {
    pub major: u64,
    pub minor: u64,
    pub patch: u64,
    pub pre: String,
    pub build: String,
}

pub struct SemVerView {
    pub major: u64,
    pub minor: u64,
    pub patch: u64,
    pub pre: Seq<char>,
    pub build: Seq<char>,
}

impl View for SemVer {
    type V = SemVerView;

    open spec fn view(&self) -> SemVerView {
        SemVerView {
            major: self.major,
            minor: self.minor,
            patch: self.patch,
            pre: self.pre@,
            build: self.build@,
        }
    }
}

impl SemVer {
    /// A copy with the same view; unlike the derived clone, Verus knows
    /// what this one holds.
    pub fn duplicate(&self) -> (r: SemVer)
        ensures
            r@ == self@,
    {
        SemVer {
            major: self.major,
            minor: self.minor,
            patch: self.patch,
            pre: self.pre.clone(),
            build: self.build.clone(),
        }
    }

    /// A release with no prerelease and no build metadata.
    pub fn release(major: u64, minor: u64, patch: u64) -> (r: SemVer)
        ensures
            r@.major == major,
            r@.minor == minor,
            r@.patch == patch,
            r@.pre.len() == 0,
            r@.build.len() == 0,
    {
        SemVer { major, minor, patch, pre: String::new(), build: String::new() }
    }
}

// ---------------------------------------------------------------------------
// Precedence, as the semantic-versioning rules give it.
// ---------------------------------------------------------------------------

pub open spec fn spec_is_num_ident(s: Seq<char>) -> bool {
    s.len() > 0 && spec_all_digits(s)
}

/// Code-point lexicographic order on identifiers.
pub open spec fn spec_lex_lt(a: Seq<char>, b: Seq<char>) -> bool
    decreases a.len() + b.len(),
{
    if b.len() == 0 {
        false
    } else if a.len() == 0 {
        true
    } else if a[0] != b[0] {
        (a[0] as u32) < (b[0] as u32)
    } else {
        spec_lex_lt(a.drop_first(), b.drop_first())
    }
}

/// Order on single identifiers: numeric ones numerically, numeric before
/// alphanumeric, alphanumeric ones lexically.
pub open spec fn spec_ident_lt(a: Seq<char>, b: Seq<char>) -> bool {
    if spec_is_num_ident(a) && spec_is_num_ident(b) {
        spec_num_val(a) < spec_num_val(b)
    } else if spec_is_num_ident(a) {
        true
    } else if spec_is_num_ident(b) {
        false
    } else {
        spec_lex_lt(a, b)
    }
}

/// Order on dot-separated identifier lists, position by position; a strict
/// prefix comes first.
pub open spec fn spec_idents_lt(a: Seq<Seq<char>>, b: Seq<Seq<char>>) -> bool
    decreases a.len(),
{
    if a.len() == 0 {
        b.len() > 0
    } else if b.len() == 0 {
        false
    } else if a[0] == b[0] {
        spec_idents_lt(a.drop_first(), b.drop_first())
    } else {
        spec_ident_lt(a[0], b[0])
    }
}

/// Order on prerelease tags: any prerelease comes before none.
pub open spec fn spec_pre_lt(a: Seq<char>, b: Seq<char>) -> bool {
    if a.len() == 0 {
        false
    } else if b.len() == 0 {
        true
    } else {
        spec_idents_lt(spec_split(a, '.'), spec_split(b, '.'))
    }
}

/// Strict precedence on version tuples; build metadata never counts.
pub open spec fn spec_version_lt(a: SemVerView, b: SemVerView) -> bool {
    ||| a.major < b.major
    ||| (a.major == b.major && a.minor < b.minor)
    ||| (a.major == b.major && a.minor == b.minor && a.patch < b.patch)
    ||| (a.major == b.major && a.minor == b.minor && a.patch == b.patch && spec_pre_lt(
        a.pre,
        b.pre,
    ))
}

// ---------------------------------------------------------------------------
// Numeric identifiers: value bounds used by the executable comparison.
// ---------------------------------------------------------------------------

pub open spec fn spec_pow10(n: nat) -> nat
    decreases n,
{
    if n == 0 {
        1
    } else {
        10 * spec_pow10((n - 1) as nat)
    }
}

proof fn lemma_pow10_pos(n: nat)
    ensures
        spec_pow10(n) >= 1,
    decreases n,
{
    if n > 0 {
        lemma_pow10_pos((n - 1) as nat);
    }
}

proof fn lemma_pow10_mono(m: nat, n: nat)
    requires
        m <= n,
    ensures
        spec_pow10(m) <= spec_pow10(n),
    decreases n,
{
    if m < n {
        lemma_pow10_mono(m, (n - 1) as nat);
        lemma_pow10_pos((n - 1) as nat);
    }
}

proof fn lemma_num_val_upper(s: Seq<char>)
    requires
        spec_all_digits(s),
    ensures
        spec_num_val(s) < spec_pow10(s.len() as nat),
    decreases s.len(),
{
    if s.len() > 0 {
        let dl = s.drop_last();
        assert(spec_all_digits(dl));
        lemma_num_val_upper(dl);
        assert(spec_digit_val(s.last()) <= 9);
        assert(spec_num_val(dl) * 10 + 10 <= spec_pow10(dl.len() as nat) * 10) by (nonlinear_arith)
            requires
                spec_num_val(dl) < spec_pow10(dl.len() as nat),
        ;
    }
}

/// Two characters with one code point are one character.
proof fn lemma_char_cast_inj(a: char, b: char)
    requires
        a as u32 == b as u32,
    ensures
        a == b,
{
    vstd::utf8::char_u32_cast(a, a as u32);
    vstd::utf8::char_u32_cast(b, b as u32);
}

proof fn lemma_num_val_singleton(c: char)
    ensures
        spec_num_val(seq![c]) == spec_digit_val(c),
{
    assert(seq![c].drop_last() =~= Seq::<char>::empty());
    assert(spec_num_val(Seq::<char>::empty()) == 0);
    assert(seq![c].last() == c);
}

proof fn lemma_num_val_lower(s: Seq<char>)
    requires
        spec_all_digits(s),
        s.len() > 0,
        s[0] != '0',
    ensures
        spec_num_val(s) >= spec_pow10((s.len() - 1) as nat),
    decreases s.len(),
{
    if s.len() == 1 {
        assert(spec_is_digit(s[0]));
        if spec_digit_val(s[0]) == 0 {
            lemma_char_cast_inj(s[0], '0');
        }
        assert(s.drop_last() =~= Seq::<char>::empty());
        assert(spec_num_val(Seq::<char>::empty()) == 0);
        assert(s.last() == s[0]);
    } else {
        let dl = s.drop_last();
        assert(spec_all_digits(dl));
        assert(dl[0] == s[0]);
        lemma_num_val_lower(dl);
        assert(spec_num_val(dl) * 10 >= spec_pow10((dl.len() - 1) as nat) * 10) by (nonlinear_arith)
            requires
                spec_num_val(dl) >= spec_pow10((dl.len() - 1) as nat),
        ;
    }
}

/// Leading zeros do not change a numeral's value.
proof fn lemma_num_val_drop_zero(s: Seq<char>)
    requires
        s.len() > 0,
        s[0] == '0',
    ensures
        spec_num_val(s) == spec_num_val(s.drop_first()),
    decreases s.len(),
{
    if s.len() == 1 {
        assert(s.drop_last() =~= Seq::<char>::empty());
        assert(s.drop_first() =~= Seq::<char>::empty());
        assert(spec_num_val(Seq::<char>::empty()) == 0);
        assert(s.last() == s[0]);
        assert(spec_digit_val('0') == 0);
    } else {
        let dl = s.drop_last();
        assert(dl[0] == s[0]);
        lemma_num_val_drop_zero(dl);
        assert(dl.drop_first() =~= s.drop_first().drop_last());
        assert(s.drop_first().last() == s.last());
    }
}

proof fn lemma_num_val_skip_zeros(s: Seq<char>, k: int)
    requires
        0 <= k <= s.len(),
        forall|j: int| 0 <= j < k ==> s[j] == '0',
    ensures
        spec_num_val(s) == spec_num_val(s.skip(k)),
    decreases k,
{
    if k == 0 {
        assert(s.skip(0) =~= s);
    } else {
        lemma_num_val_drop_zero(s);
        let t = s.drop_first();
        assert forall|j: int| 0 <= j < k - 1 implies t[j] == '0' by {
            assert(t[j] == s[j + 1]);
        }
        lemma_num_val_skip_zeros(t, k - 1);
        assert(t.skip(k - 1) =~= s.skip(k));
    }
}

/// Positional decomposition of a numeral around index `i`.
proof fn lemma_num_val_split(s: Seq<char>, i: int)
    requires
        0 <= i <= s.len(),
    ensures
        spec_num_val(s) == spec_num_val(s.take(i)) * spec_pow10((s.len() - i) as nat)
            + spec_num_val(s.skip(i)),
    decreases s.len() - i,
{
    if i == s.len() {
        assert(s.take(i) =~= s);
        assert(s.skip(i) =~= Seq::<char>::empty());
        assert(spec_num_val(Seq::<char>::empty()) == 0);
        assert(spec_pow10(0) == 1);
        assert(spec_num_val(s) * 1 == spec_num_val(s)) by (nonlinear_arith);
    } else {
        let dl = s.drop_last();
        lemma_num_val_split(dl, i);
        assert(dl.take(i) =~= s.take(i));
        assert(dl.skip(i) =~= s.skip(i).drop_last());
        assert(s.skip(i).last() == s.last());
        let p = spec_num_val(s.take(i));
        let q = spec_pow10((dl.len() - i) as nat);
        let r = spec_num_val(s.skip(i).drop_last());
        let d = spec_digit_val(s.last());
        assert(spec_num_val(s.skip(i)) == r * 10 + d);
        assert(spec_num_val(s) == (p * q + r) * 10 + d);
        assert((p * q + r) * 10 + d == p * (q * 10) + (r * 10 + d)) by (nonlinear_arith);
        assert(spec_pow10((s.len() - i) as nat) == 10 * q);
        assert(p * (10 * q) == p * (q * 10)) by (nonlinear_arith);
    }
}

/// Equal-length numerals compare as their first differing digit does.
proof fn lemma_num_lex(a: Seq<char>, b: Seq<char>, i: int)
    requires
        spec_all_digits(a),
        spec_all_digits(b),
        a.len() == b.len(),
        0 <= i < a.len(),
        forall|j: int| 0 <= j < i ==> a[j] == b[j],
        spec_digit_val(a[i]) < spec_digit_val(b[i]),
    ensures
        spec_num_val(a) < spec_num_val(b),
{
    lemma_num_val_split(a, i);
    lemma_num_val_split(b, i);
    assert(a.take(i) =~= b.take(i));
    let p = spec_num_val(a.take(i));
    let w = spec_pow10((a.len() - i) as nat);
    let x = a.skip(i);
    let y = b.skip(i);
    lemma_num_val_split(x, 1);
    lemma_num_val_split(y, 1);
    assert(x.take(1) =~= seq![a[i]]);
    assert(y.take(1) =~= seq![b[i]]);
    lemma_num_val_singleton(a[i]);
    lemma_num_val_singleton(b[i]);
    let w1 = spec_pow10((x.len() - 1) as nat);
    assert(spec_all_digits(x)) by {
        assert(forall|j: int| 0 <= j < x.len() ==> x[j] == a[i + j] && spec_is_digit(#[trigger] a[i + j]));
    }
    assert(spec_all_digits(y)) by {
        assert(forall|j: int| 0 <= j < y.len() ==> y[j] == b[i + j] && spec_is_digit(#[trigger] b[i + j]));
    }
    assert(spec_all_digits(x.skip(1))) by {
        assert(forall|j: int| 0 <= j < x.skip(1).len() ==> x.skip(1)[j] == x[1 + j] && spec_is_digit(
            #[trigger] x[1 + j],
        ));
    }
    lemma_num_val_upper(x.skip(1));
    assert(x.skip(1).len() == x.len() - 1);
    assert(spec_num_val(x) < (spec_digit_val(a[i]) + 1) * w1) by (nonlinear_arith)
        requires
            spec_num_val(x) == spec_num_val(x.take(1)) * w1 + spec_num_val(x.skip(1)),
            spec_num_val(x.take(1)) == spec_digit_val(a[i]),
            spec_num_val(x.skip(1)) < w1,
    ;
    assert(spec_num_val(y) >= spec_digit_val(b[i]) * w1) by (nonlinear_arith)
        requires
            spec_num_val(y) == spec_num_val(y.take(1)) * w1 + spec_num_val(y.skip(1)),
            spec_num_val(y.take(1)) == spec_digit_val(b[i]),
    ;
    assert((spec_digit_val(a[i]) + 1) * w1 <= spec_digit_val(b[i]) * w1) by (nonlinear_arith)
        requires
            spec_digit_val(a[i]) + 1 <= spec_digit_val(b[i]),
            w1 >= 0,
    ;
    assert(spec_num_val(a) < spec_num_val(b)) by (nonlinear_arith)
        requires
            spec_num_val(a) == p * w + spec_num_val(x),
            spec_num_val(b) == p * w + spec_num_val(y),
            spec_num_val(x) < spec_num_val(y),
    ;
}

// ---------------------------------------------------------------------------
// Executable comparison.
// ---------------------------------------------------------------------------

fn is_num_ident(s: &str) -> (r: bool)
    ensures
        r == spec_is_num_ident(s@),
{
    let n = s.unicode_len();
    if n == 0 {
        return false;
    }
    let mut i: usize = 0;
    while i < n
        invariant
            i <= n,
            n == s@.len(),
            forall|j: int| 0 <= j < i ==> spec_is_digit(#[trigger] s@[j]),
        decreases n - i,
    {
        if !is_digit(s.get_char(i)) {
            return false;
        }
        i = i + 1;
    }
    true
}

fn lex_lt(a: &str, b: &str) -> (r: bool)
    ensures
        r == spec_lex_lt(a@, b@),
{
    let na = a.unicode_len();
    let nb = b.unicode_len();
    let m = if na < nb {
        na
    } else {
        nb
    };
    let mut i: usize = 0;
    proof {
        assert(a@.skip(0) =~= a@);
        assert(b@.skip(0) =~= b@);
    }
    while i < m
        invariant
            i <= m,
            na == a@.len(),
            nb == b@.len(),
            m == if na < nb { na as int } else { nb as int },
            spec_lex_lt(a@, b@) == spec_lex_lt(a@.skip(i as int), b@.skip(i as int)),
        decreases m - i,
    {
        let ca = a.get_char(i);
        let cb = b.get_char(i);
        proof {
            assert(a@.skip(i as int)[0] == a@[i as int]);
            assert(b@.skip(i as int)[0] == b@[i as int]);
        }
        if (ca as u32) < (cb as u32) {
            return true;
        }
        if (ca as u32) > (cb as u32) {
            return false;
        }
        proof {
            lemma_char_cast_inj(a@[i as int], b@[i as int]);
            assert(a@.skip(i as int).drop_first() =~= a@.skip(i + 1));
            assert(b@.skip(i as int).drop_first() =~= b@.skip(i + 1));
        }
        i = i + 1;
    }
    proof {
        if na < nb {
            assert(a@.skip(m as int) =~= Seq::<char>::empty());
            assert(b@.skip(m as int).len() > 0);
        } else {
            assert(b@.skip(m as int) =~= Seq::<char>::empty());
        }
    }
    na < nb
}

fn num_lt(a: &str, b: &str) -> (r: bool)
    requires
        spec_is_num_ident(a@),
        spec_is_num_ident(b@),
    ensures
        r == (spec_num_val(a@) < spec_num_val(b@)),
{
    let na = a.unicode_len();
    let nb = b.unicode_len();
    let mut sa: usize = 0;
    while sa < na && a.get_char(sa) == '0'
        invariant
            sa <= na,
            na == a@.len(),
            forall|j: int| 0 <= j < sa ==> a@[j] == '0',
        decreases na - sa,
    {
        sa = sa + 1;
    }
    let mut sb: usize = 0;
    while sb < nb && b.get_char(sb) == '0'
        invariant
            sb <= nb,
            nb == b@.len(),
            forall|j: int| 0 <= j < sb ==> b@[j] == '0',
        decreases nb - sb,
    {
        sb = sb + 1;
    }
    proof {
        lemma_num_val_skip_zeros(a@, sa as int);
        lemma_num_val_skip_zeros(b@, sb as int);
        assert(spec_all_digits(a@.skip(sa as int))) by {
            assert(forall|j: int|
                0 <= j < a@.skip(sa as int).len() ==> a@.skip(sa as int)[j] == a@[sa + j]
                    && spec_is_digit(#[trigger] a@[sa + j]));
        }
        assert(spec_all_digits(b@.skip(sb as int))) by {
            assert(forall|j: int|
                0 <= j < b@.skip(sb as int).len() ==> b@.skip(sb as int)[j] == b@[sb + j]
                    && spec_is_digit(#[trigger] b@[sb + j]));
        }
    }
    let la = na - sa;
    let lb = nb - sb;
    let ghost x = a@.skip(sa as int);
    let ghost y = b@.skip(sb as int);
    if la < lb {
        proof {
            lemma_num_val_upper(x);
            lemma_num_val_lower(y);
            lemma_pow10_mono(la as nat, (lb - 1) as nat);
        }
        return true;
    }
    if lb < la {
        proof {
            lemma_num_val_upper(y);
            lemma_num_val_lower(x);
            lemma_pow10_mono(lb as nat, (la - 1) as nat);
        }
        return false;
    }
    let mut i: usize = 0;
    while i < la
        invariant
            i <= la,
            la == lb,
            sa + la == na,
            sb + lb == nb,
            na == a@.len(),
            nb == b@.len(),
            x == a@.skip(sa as int),
            y == b@.skip(sb as int),
            spec_all_digits(x),
            spec_all_digits(y),
            spec_num_val(a@) == spec_num_val(x),
            spec_num_val(b@) == spec_num_val(y),
            forall|j: int| 0 <= j < i ==> x[j] == y[j],
        decreases la - i,
    {
        let ca = a.get_char(sa + i);
        let cb = b.get_char(sb + i);
        proof {
            assert(x[i as int] == a@[sa + i]);
            assert(y[i as int] == b@[sb + i]);
        }
        if (ca as u32) < (cb as u32) {
            proof {
                lemma_num_lex(x, y, i as int);
            }
            return true;
        }
        if (ca as u32) > (cb as u32) {
            proof {
                lemma_num_lex(y, x, i as int);
            }
            return false;
        }
        proof {
            lemma_char_cast_inj(x[i as int], y[i as int]);
        }
        i = i + 1;
    }
    proof {
        assert(x =~= y);
    }
    false
}

fn ident_lt(a: &str, b: &str) -> (r: bool)
    ensures
        r == spec_ident_lt(a@, b@),
{
    let num_a = is_num_ident(a);
    let num_b = is_num_ident(b);
    if num_a && num_b {
        num_lt(a, b)
    } else if num_a {
        true
    } else if num_b {
        false
    } else {
        lex_lt(a, b)
    }
}

fn idents_lt(a: &Vec<String>, b: &Vec<String>) -> (r: bool)
    ensures
        r == spec_idents_lt(a.deep_view(), b.deep_view()),
{
    let na = a.len();
    let nb = b.len();
    let m = if na < nb {
        na
    } else {
        nb
    };
    let ghost av = a.deep_view();
    let ghost bv = b.deep_view();
    let mut i: usize = 0;
    proof {
        assert(av.skip(0) =~= av);
        assert(bv.skip(0) =~= bv);
    }
    while i < m
        invariant
            i <= m,
            av == a.deep_view(),
            bv == b.deep_view(),
            na == av.len(),
            nb == bv.len(),
            m == if na < nb { na as int } else { nb as int },
            spec_idents_lt(av, bv) == spec_idents_lt(av.skip(i as int), bv.skip(i as int)),
        decreases m - i,
    {
        proof {
            assert(av.skip(i as int)[0] == av[i as int]);
            assert(bv.skip(i as int)[0] == bv[i as int]);
            assert(av[i as int] == a@[i as int]@);
            assert(bv[i as int] == b@[i as int]@);
        }
        if !str_eq(a[i].as_str(), b[i].as_str()) {
            return ident_lt(a[i].as_str(), b[i].as_str());
        }
        proof {
            assert(av.skip(i as int).drop_first() =~= av.skip(i + 1));
            assert(bv.skip(i as int).drop_first() =~= bv.skip(i + 1));
        }
        i = i + 1;
    }
    proof {
        if na < nb {
            assert(av.skip(m as int) =~= Seq::<Seq<char>>::empty());
            assert(bv.skip(m as int).len() > 0);
        } else {
            assert(av.skip(m as int).len() == na - m);
            assert(bv.skip(m as int) =~= Seq::<Seq<char>>::empty());
        }
    }
    na < nb
}

fn pre_lt(a: &str, b: &str) -> (r: bool)
    ensures
        r == spec_pre_lt(a@, b@),
{
    let na = a.unicode_len();
    let nb = b.unicode_len();
    if na == 0 {
        false
    } else if nb == 0 {
        true
    } else {
        let sa = split_char(a, '.');
        let sb = split_char(b, '.');
        idents_lt(&sa, &sb)
    }
}

/// Strict precedence test on two version tuples.
pub fn version_lt(a: &SemVer, b: &SemVer) -> (r: bool)
    ensures
        r == spec_version_lt(a@, b@),
{
    if a.major != b.major {
        return a.major < b.major;
    }
    if a.minor != b.minor {
        return a.minor < b.minor;
    }
    if a.patch != b.patch {
        return a.patch < b.patch;
    }
    pre_lt(a.pre.as_str(), b.pre.as_str())
}

// ---------------------------------------------------------------------------
// Rendering.
// ---------------------------------------------------------------------------

/// The canonical rendering of a version tuple: `major.minor.patch`, then
/// `-pre` when a prerelease tag is present, then `+build` when build
/// metadata is present.
pub open spec fn spec_format_semver(v: SemVerView) -> Seq<char> {
    spec_dec(v.major as nat) + seq!['.'] + spec_dec(v.minor as nat) + seq!['.'] + spec_dec(
        v.patch as nat,
    ) + (if v.pre.len() > 0 {
        seq!['-'] + v.pre
    } else {
        Seq::<char>::empty()
    }) + (if v.build.len() > 0 {
        seq!['+'] + v.build
    } else {
        Seq::<char>::empty()
    })
}

pub fn format_semver(v: &SemVer) -> (r: String)
    ensures
        r@ == spec_format_semver(v@),
{
    let mut r = dec_u64(v.major);
    push_char(&mut r, '.');
    let minor = dec_u64(v.minor);
    r.append(minor.as_str());
    push_char(&mut r, '.');
    let patch = dec_u64(v.patch);
    r.append(patch.as_str());
    if !v.pre.as_str().is_empty() {
        push_char(&mut r, '-');
        r.append(v.pre.as_str());
    }
    if !v.build.as_str().is_empty() {
        push_char(&mut r, '+');
        r.append(v.build.as_str());
    }
    proof {
        assert(r@ =~= spec_format_semver(v@));
    }
    r
}

// ---------------------------------------------------------------------------
// The precedence relation is a strict order.
// ---------------------------------------------------------------------------

proof fn lemma_lex_asym(a: Seq<char>, b: Seq<char>)
    requires
        spec_lex_lt(a, b),
    ensures
        !spec_lex_lt(b, a),
    decreases a.len() + b.len(),
{
    if a.len() > 0 && b.len() > 0 && a[0] == b[0] {
        lemma_lex_asym(a.drop_first(), b.drop_first());
    }
}

proof fn lemma_lex_trans(a: Seq<char>, b: Seq<char>, c: Seq<char>)
    requires
        spec_lex_lt(a, b),
        spec_lex_lt(b, c),
    ensures
        spec_lex_lt(a, c),
    decreases a.len() + b.len() + c.len(),
{
    if a.len() > 0 && b.len() > 0 && c.len() > 0 {
        if a[0] == b[0] && b[0] == c[0] {
            lemma_lex_trans(a.drop_first(), b.drop_first(), c.drop_first());
        } else if a[0] != c[0] {
            // first characters decide; the code-point order carries over
        } else {
            // a[0] == c[0]: then exactly one of the first two comparisons was
            // strict in each direction, which is impossible
            assert((a[0] as u32) <= (b[0] as u32));
            assert((b[0] as u32) <= (a[0] as u32));
            lemma_char_cast_inj(a[0], b[0]);
        }
    }
}

proof fn lemma_ident_asym(a: Seq<char>, b: Seq<char>)
    requires
        spec_ident_lt(a, b),
    ensures
        !spec_ident_lt(b, a),
{
    if !spec_is_num_ident(a) && !spec_is_num_ident(b) {
        lemma_lex_asym(a, b);
    }
}

proof fn lemma_ident_trans(a: Seq<char>, b: Seq<char>, c: Seq<char>)
    requires
        spec_ident_lt(a, b),
        spec_ident_lt(b, c),
    ensures
        spec_ident_lt(a, c),
{
    if !spec_is_num_ident(a) && !spec_is_num_ident(b) && !spec_is_num_ident(c) {
        lemma_lex_trans(a, b, c);
    }
}

proof fn lemma_idents_asym(a: Seq<Seq<char>>, b: Seq<Seq<char>>)
    requires
        spec_idents_lt(a, b),
    ensures
        !spec_idents_lt(b, a),
    decreases a.len(),
{
    if a.len() > 0 && b.len() > 0 {
        if a[0] == b[0] {
            lemma_idents_asym(a.drop_first(), b.drop_first());
        } else {
            lemma_ident_asym(a[0], b[0]);
        }
    }
}

proof fn lemma_idents_trans(a: Seq<Seq<char>>, b: Seq<Seq<char>>, c: Seq<Seq<char>>)
    requires
        spec_idents_lt(a, b),
        spec_idents_lt(b, c),
    ensures
        spec_idents_lt(a, c),
    decreases a.len() + b.len() + c.len(),
{
    if a.len() == 0 {
        // b, hence c, is non-empty
    } else {
        if a[0] == b[0] && b[0] == c[0] {
            lemma_idents_trans(a.drop_first(), b.drop_first(), c.drop_first());
        } else if a[0] == c[0] {
            if a[0] == b[0] {
                lemma_ident_asym(b[0], c[0]);
                assert(false);
            } else if b[0] == c[0] {
                lemma_ident_asym(a[0], b[0]);
                assert(false);
            } else {
                lemma_ident_asym(a[0], b[0]);
                lemma_ident_trans(a[0], b[0], c[0]);
                assert(false);
            }
        } else {
            if a[0] == b[0] {
            } else if b[0] == c[0] {
            } else {
                lemma_ident_trans(a[0], b[0], c[0]);
            }
        }
    }
}

proof fn lemma_pre_asym(a: Seq<char>, b: Seq<char>)
    requires
        spec_pre_lt(a, b),
    ensures
        !spec_pre_lt(b, a),
{
    if a.len() > 0 && b.len() > 0 {
        lemma_idents_asym(spec_split(a, '.'), spec_split(b, '.'));
    }
}

proof fn lemma_pre_trans(a: Seq<char>, b: Seq<char>, c: Seq<char>)
    requires
        spec_pre_lt(a, b),
        spec_pre_lt(b, c),
    ensures
        spec_pre_lt(a, c),
{
    if b.len() == 0 {
        // then spec_pre_lt(b, c) is false
    } else if c.len() > 0 {
        lemma_idents_trans(spec_split(a, '.'), spec_split(b, '.'), spec_split(c, '.'));
    }
}

proof fn lemma_idents_irrefl(x: Seq<Seq<char>>)
    ensures
        !spec_idents_lt(x, x),
    decreases x.len(),
{
    if x.len() > 0 {
        lemma_idents_irrefl(x.drop_first());
    }
}

/// No version precedes itself.
pub proof fn lemma_version_lt_irrefl(a: SemVerView)
    ensures
        !spec_version_lt(a, a),
{
    if a.pre.len() > 0 {
        lemma_idents_irrefl(spec_split(a.pre, '.'));
    }
}

/// Precedence is asymmetric: no two versions are each newer than the other.
pub proof fn lemma_version_lt_asym(a: SemVerView, b: SemVerView)
    requires
        spec_version_lt(a, b),
    ensures
        !spec_version_lt(b, a),
{
    if a.major == b.major && a.minor == b.minor && a.patch == b.patch {
        lemma_pre_asym(a.pre, b.pre);
    }
}

/// Precedence is transitive.
pub proof fn lemma_version_lt_trans(a: SemVerView, b: SemVerView, c: SemVerView)
    requires
        spec_version_lt(a, b),
        spec_version_lt(b, c),
    ensures
        spec_version_lt(a, c),
{
    if a.major == c.major && a.minor == c.minor && a.patch == c.patch {
        lemma_pre_trans(a.pre, b.pre, c.pre);
    }
}

/// Monotonicity of the ordering model over each source's own convention: a
/// strictly larger (major, minor, patch) triple is a newer version, and with
/// an equal triple a release is newer than any prerelease of it.
pub proof fn lemma_version_order_monotonic(a: SemVerView, b: SemVerView)
    ensures
        (a.major < b.major || (a.major == b.major && a.minor < b.minor) || (a.major == b.major
            && a.minor == b.minor && a.patch < b.patch)) ==> spec_version_lt(a, b),
        (a.major == b.major && a.minor == b.minor && a.patch == b.patch && a.pre.len() > 0
            && b.pre.len() == 0) ==> spec_version_lt(a, b),
{
}

} // verus!
