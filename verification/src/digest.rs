//! The off-circuit SHA-256 primitive and the witness word type handed to the
//! in-circuit digest gadget.

use vstd::prelude::*;

verus! {

/// The SHA-256 digest of a byte sequence. The function itself is left
/// unstated: every use goes through [`sha256_hash_bytes_digests`], whose
/// result is bound to this name, so equal inputs are known to yield equal
/// digests without restating the hash algorithm.
pub uninterp spec fn sha256_of(msg: Seq<u8>) -> Seq<u8>;

/// Relies on sha2's `Sha256` (`Digest::digest`): the SHA-256 digest of `msg`,
/// 32 bytes, a function of `msg` alone.
#[verifier::external_body]
pub fn sha256_hash_bytes_digests(msg: &[u8]) -> (r: [u8; 32])
    ensures
        r@ == sha256_of(msg@),
{
    let digest = <sha2::Sha256 as sha2::Digest>::digest(msg);
    digest.into()
}

/// A 32-bit witness word in the form the in-circuit digest gadget consumes.
#[derive(Clone, Copy, Debug, PartialEq, Eq, Structural)]
pub struct BlockWord(pub u32);

/// Wraps each 32-bit word as a gadget witness word. The gadget consumes
/// half-block multiples, so the word count must be a multiple of eight.
pub fn u32_array_to_blockwords(origin: &[u32]) -> (r: Vec<BlockWord>)
    requires
        origin@.len() % 8 == 0,
    ensures
        r@.len() == origin@.len(),
        forall|k: int| 0 <= k < r@.len() ==> r@[k].0 == origin@[k],
{
    let mut result: Vec<BlockWord> = Vec::new();
    let mut i: usize = 0;
    while i < origin.len()
        invariant
            i <= origin@.len(),
            i == result@.len(),
            forall|k: int| 0 <= k < result@.len() ==> result@[k].0 == origin@[k],
        decreases origin@.len() - i,
    {
        result.push(BlockWord(origin[i]));
        i = i + 1;
    }
    result
}

} // verus!
