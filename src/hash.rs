//! SHA-256 digests, used for stable rule and service identities.

use vstd::prelude::*;

verus! {

/// The lowercase hex SHA-256 digest of the UTF-8 encoding of `s`.
pub uninterp spec fn sha256_hex(s: Seq<char>) -> Seq<char>;

/// A lowercase hex digit.
pub open spec fn is_hex_digit(c: char) -> bool {
    ('0' <= c && c <= '9') || ('a' <= c && c <= 'f')
}

/// Every character of `s` is a lowercase hex digit.
pub open spec fn all_hex(s: Seq<char>) -> bool {
    forall|i: int| 0 <= i < s.len() ==> is_hex_digit(#[trigger] s[i])
}

/// Relies on `sha256::digest` for a `&str`: the lowercase hex encoding
/// (`hex::encode`) of the SHA-256 digest of the string's bytes, 32 bytes
/// written as 64 hex digits.
#[verifier::external_body]
pub(crate) fn sha256_digest(s: &str) -> (r: String)
    ensures
        r@ == sha256_hex(s@),
        r@.len() == 64,
        all_hex(r@),
{
    sha256::digest(s)
}

/// The first `n` hex digits of the digest of `s`.
pub open spec fn short_hash(s: Seq<char>, n: nat) -> Seq<char> {
    sha256_hex(s).take(n as int)
}

/// The first `n` hex digits of the digest of `s`.
pub fn short_digest(s: &str, n: usize) -> (r: String)
    requires
        n <= 64,
    ensures
        r@ == short_hash(s@, n as nat),
        r@.len() == n,
        all_hex(r@),
{
    let full = sha256_digest(s);
    let r = full.as_str().substring_char(0, n).to_owned();
    assert forall|i: int| 0 <= i < r@.len() implies is_hex_digit(#[trigger] r@[i]) by {
        assert(r@[i] == full@[i]);
    }
    r
}

} // verus!
