//! Digest verification. The digests themselves come from the `md-5` and
//! `sha2` crates behind trusted wrappers; the comparison against the
//! expected value, including its trimming, is verified.

use vstd::prelude::*;
use crate::strutil::{spec_trim, trim, str_eq, spec_split, spec_words, split_char, words};

verus! {

#[derive(Debug, Clone, Copy, PartialEq, Eq, Structural)]
pub enum ChecksumMethod {
    Skip,
    Sha256,
    Md5,
}

/// The lower-case hex MD5 digest: a function of the bytes alone.
pub uninterp spec fn md5_hex_of(data: Seq<u8>) -> Seq<char>;

/// The lower-case hex SHA-256 digest: a function of the bytes alone.
pub uninterp spec fn sha256_hex_of(data: Seq<u8>) -> Seq<char>;

/// Relies on md5::Md5 through the Digest trait: the digest depends on the
/// bytes alone; `{:x}` renders it as lower-case hex.
#[verifier::external_body]
fn md5_hex(data: &[u8]) -> (r: String)
    ensures
        r@ == md5_hex_of(data@),
{
    let mut h = <md5::Md5 as md5::Digest>::new();
    <md5::Md5 as md5::Digest>::update(&mut h, data);
    let d = <md5::Md5 as md5::Digest>::finalize(h);
    d.iter().map(|b| format!("{:02x}", b)).collect::<String>()
}

/// Relies on sha2::Sha256 through the Digest trait: the digest depends on
/// the bytes alone; `{:x}` renders it as lower-case hex.
#[verifier::external_body]
fn sha256_hex(data: &[u8]) -> (r: String)
    ensures
        r@ == sha256_hex_of(data@),
{
    let mut h = <sha2::Sha256 as sha2::Digest>::new();
    <sha2::Sha256 as sha2::Digest>::update(&mut h, data);
    let d = <sha2::Sha256 as sha2::Digest>::finalize(h);
    d.iter().map(|b| format!("{:02x}", b)).collect::<String>()
}

/// When a file's bytes pass verification: with no method, always; otherwise
/// exactly when the expected text, trimmed, is the digest of the bytes.
pub open spec fn spec_verify(method: ChecksumMethod, data: Seq<u8>, expected: Seq<char>) -> bool {
    match method {
        ChecksumMethod::Skip => true,
        ChecksumMethod::Sha256 => spec_trim(expected) == sha256_hex_of(data),
        ChecksumMethod::Md5 => spec_trim(expected) == md5_hex_of(data),
    }
}

/// Verifies a downloaded artifact's bytes against an expected digest.
pub fn verify(method: ChecksumMethod, data: &[u8], expected: &str) -> (r: bool)
    ensures
        r == spec_verify(method, data@, expected@),
{
    match method {
        ChecksumMethod::Skip => true,
        ChecksumMethod::Sha256 => {
            let d = sha256_hex(data);
            let t = trim(expected);
            str_eq(t.as_str(), d.as_str())
        },
        ChecksumMethod::Md5 => {
            let d = md5_hex(data);
            let t = trim(expected);
            str_eq(t.as_str(), d.as_str())
        },
    }
}

// ---------------------------------------------------------------------------
// Digest listings: files that pair a digest with an artifact name per line.
// ---------------------------------------------------------------------------

/// A line without its trailing carriage return.
pub open spec fn spec_strip_cr(l: Seq<char>) -> Seq<char> {
    if l.len() > 0 && l.last() == '\r' {
        l.drop_last()
    } else {
        l
    }
}

/// The digest a single listing line gives for `file`: its first word, when
/// its second word is exactly `file`.
pub open spec fn spec_line_digest(l: Seq<char>, file: Seq<char>) -> Option<Seq<char>> {
    let ws = spec_words(spec_strip_cr(l));
    if ws.len() > 1 && ws[1] == file {
        Some(ws[0])
    } else {
        None
    }
}

/// The digest a listing gives for `file`; of several entries the last one
/// counts.
pub open spec fn spec_digest_in_lines(ls: Seq<Seq<char>>, file: Seq<char>) -> Option<Seq<char>>
    decreases ls.len(),
{
    if ls.len() == 0 {
        None
    } else {
        let r = spec_line_digest(ls.last(), file);
        if r is Some {
            r
        } else {
            spec_digest_in_lines(ls.drop_last(), file)
        }
    }
}

pub open spec fn spec_find_digest(text: Seq<char>, file: Seq<char>) -> Option<Seq<char>> {
    spec_digest_in_lines(spec_split(text, '\n'), file)
}

/// Looks a file's digest up in a fetched digest listing, such as a
/// `SHASUMS256.txt` body.
pub fn find_digest_for(text: &str, file: &str) -> (r: Option<String>)
    ensures
        (r is Some) == (spec_find_digest(text@, file@) is Some),
        r matches Some(d) ==> spec_find_digest(text@, file@) == Some(d@),
{
    let lines = split_char(text, '\n');
    let n = lines.len();
    let mut found: Option<String> = None;
    let ghost ls = spec_split(text@, '\n');
    let mut i: usize = 0;
    while i < n
        invariant
            i <= n,
            n == ls.len(),
            ls == lines.deep_view(),
            (found is Some) == (spec_digest_in_lines(ls.take(i as int), file@) is Some),
            found matches Some(d) ==> spec_digest_in_lines(ls.take(i as int), file@) == Some(d@),
        decreases n - i,
    {
        let line = lines[i].as_str();
        let stripped = if line.is_empty() {
            line
        } else {
            let m = line.unicode_len();
            if line.get_char(m - 1) == '\r' {
                line.substring_char(0, m - 1)
            } else {
                line
            }
        };
        proof {
            assert(ls[i as int] == lines@[i as int]@);
            if lines@[i as int]@.len() > 0 && lines@[i as int]@.last() == '\r' {
                assert(stripped@ =~= spec_strip_cr(ls[i as int]));
            } else {
                assert(stripped@ =~= spec_strip_cr(ls[i as int]));
            }
        }
        let ws = words(stripped);
        if ws.len() > 1 && str_eq(ws[1].as_str(), file) {
            proof {
                assert(ws.deep_view()[0] == ws@[0]@);
                assert(ws.deep_view()[1] == ws@[1]@);
            }
            found = Some(ws[0].clone());
        }
        proof {
            assert(ls.take(i + 1).last() == ls[i as int]);
            assert(ls.take(i + 1).drop_last() =~= ls.take(i as int));
        }
        i = i + 1;
    }
    proof {
        assert(ls.take(n as int) =~= ls);
    }
    found
}

} // verus!
