//! Small string utilities: content hashing of the raw configuration text and
//! stripping of matching quote pairs around `.env` values.

use vstd::prelude::*;

verus! {

use sha2::Digest;

/// The textual rendering of the SHA-256 digest of a character sequence.
/// Named, not written out: the digest is computed by the `sha2` crate and
/// depends on the input characters alone.
pub uninterp spec fn sha256_digest(s: Seq<char>) -> Seq<char>;

/// Relies on `sha2::Sha256`: the digest is a pure function of the input
/// bytes, so equal contents always yield equal digest strings.
#[verifier::external_body]
pub fn get_content_hash(content: &str) -> (r: String)
    ensures
        r@ == sha256_digest(content@),
{
    let mut hasher = sha2::Sha256::new();
    hasher.update(content.as_bytes());
    format!("{:?}", hasher.finalize())
}

/// What `trim_quotes` returns: the inner text when the string is wrapped in
/// a matching pair of double or single quotes, the string unchanged
/// otherwise.
pub open spec fn spec_trim_quotes(s: Seq<char>) -> Seq<char> {
    if s.len() >= 2 && s.first() == s.last() && (s.first() == '"' || s.first() == '\'') {
        s.subrange(1, s.len() - 1)
    } else {
        s
    }
}

/// Strips one matching pair of surrounding double or single quotes.
pub fn trim_quotes(s: &str) -> (r: String)
    ensures
        r@ == spec_trim_quotes(s@),
{
    let n = s.unicode_len();
    if n < 2 {
        return s.to_owned();
    }
    let first = s.get_char(0);
    let last = s.get_char(n - 1);
    if first == last && (first == '"' || first == '\'') {
        let inner = s.substring_char(1, n - 1);
        inner.to_owned()
    } else {
        s.to_owned()
    }
}

/// Hash stability: the content digest is a function of the configuration
/// text alone, so hashing identical text twice yields identical digests.
pub proof fn lemma_content_hash_stable(a: Seq<char>, b: Seq<char>)
    requires
        a == b,
    ensures
        sha256_digest(a) == sha256_digest(b),
{
}

} // verus!
