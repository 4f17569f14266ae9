//! Stable content digests.
//!
//! Identity of a patch-set and the short hash of a source identifier are both
//! derived from a cryptographic digest that is stable across releases,
//! machines and platforms.  The digest itself comes from an outside crate;
//! its value is named, never restated.

use vstd::prelude::*;

use crate::strutil::is_hex_seq;

verus! {

/// The lowercase hexadecimal digest of a character sequence.  The value is a
/// function of the input alone: the same characters give the same digest in
/// every process and on every machine.
pub uninterp spec fn digest_of(data: Seq<char>) -> Seq<char>;

/// Relies on `blake3::hash` and `blake3::Hash::to_hex`: the digest of the
/// UTF-8 bytes of `data`, rendered as 64 lowercase hex characters, depending
/// on `data` alone.
#[verifier::external_body]
pub fn digest_hex(data: &str) -> (r: String)
    ensures
        r@ == digest_of(data@),
        r@.len() == 64,
        is_hex_seq(r@),
{
    blake3::hash(data.as_bytes()).to_hex().as_str().to_string()
}

/// The concatenation of a list of character sequences, in order.
pub open spec fn spec_concat(parts: Seq<Seq<char>>) -> Seq<char>
    decreases parts.len(),
{
    if parts.len() == 0 {
        Seq::empty()
    } else {
        spec_concat(parts.drop_last()) + parts.last()
    }
}

/// Concatenates a list of strings, in order.
pub fn concat_all(parts: &Vec<String>) -> (r: String)
    ensures
        r@ == spec_concat(parts@.map_values(|p: String| p@)),
{
    let mut r = String::new();
    let mut i: usize = 0;
    while i < parts.len()
        invariant
            i <= parts@.len(),
            r@ == spec_concat(parts@.map_values(|p: String| p@).subrange(0, i as int)),
        decreases parts@.len() - i,
    {
        r.append(parts[i].as_str());
        proof {
            let m = parts@.map_values(|p: String| p@);
            assert(m.subrange(0, i + 1).drop_last() =~= m.subrange(0, i as int));
            assert(m.subrange(0, i + 1).last() == m[i as int]);
        }
        i = i + 1;
    }
    proof {
        let m = parts@.map_values(|p: String| p@);
        assert(m.subrange(0, m.len() as int) =~= m);
    }
    r
}

/// The digest that identifies a patch-set: the digest of the concatenated
/// contents of the ordered patch-file list.
pub open spec fn spec_patch_set_digest(contents: Seq<Seq<char>>) -> Seq<char> {
    digest_of(spec_concat(contents))
}

/// Computes the patch-set digest of ordered file contents.
pub fn patch_set_digest(contents: &Vec<String>) -> (r: String)
    ensures
        r@ == spec_patch_set_digest(contents@.map_values(|c: String| c@)),
        r@.len() == 64,
        is_hex_seq(r@),
{
    let joined = concat_all(contents);
    digest_hex(joined.as_str())
}

/// The first `n` characters of a digest, used for display forms and
/// directory names.
pub fn digest_prefix(digest: &str, n: usize) -> (r: String)
    requires
        n <= digest@.len(),
    ensures
        r@ == digest@.subrange(0, n as int),
{
    String::from_str(digest.substring_char(0, n))
}

} // verus!
