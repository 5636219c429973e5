//! Off-circuit witness precomputation: locating the credential inside the
//! JWT, deriving the word-aligned location and offset pairs, building the
//! zero-padded aligned credential, and computing both SHA-256 digests.

use vstd::prelude::*;
use vstd::slice::slice_to_vec;
use vstd::string::StringSliceAdditionalSpecFns;

use crate::digest::{sha256_hash_bytes_digests, sha256_of, u32_array_to_blockwords, BlockWord};
use crate::util::{
    bytes_to_u32_array, contains_subsequence, matches_at, pad_bytes_front_n_end, pad_sha256_bytes,
    sha256_pad, word_at, words_of, zero_bytes,
};

verus! {

/// Failure of witness precomputation.
#[derive(Clone, Copy, Debug, PartialEq, Eq, Structural)]
pub enum PrecomputeError {
    /// The credential bytes are not a substring of the JWT bytes.
    CredentialNotFound,
}

/// The witness data a single proof instance needs, computed once off-circuit
/// and immutable afterwards.
#[derive(Debug, PartialEq, Eq)]
pub struct PreComputed {
    jwt_bytes: Vec<u8>,
    original_credential_bytes: Vec<u8>,
    credential_bytes: Vec<u8>,

    segment_location_start: usize,
    segment_location_end: usize,
    segment_start_offset: usize,
    segment_end_offset: usize,

    digest_jwt: [u8; 32],
    digest_credential: [u8; 32],
}

impl PreComputed {
    /// The full JWT document, private witness data.
    pub closed spec fn spec_jwt(&self) -> Seq<u8> {
        self.jwt_bytes@
    }

    /// The original secret credential substring.
    pub closed spec fn spec_credential(&self) -> Seq<u8> {
        self.original_credential_bytes@
    }

    /// The credential with `start_offset` leading and `end_offset` trailing
    /// zero bytes, aligned to the JWT's word positions.
    pub closed spec fn spec_aligned(&self) -> Seq<u8> {
        self.credential_bytes@
    }

    /// Index of the first JWT word overlapping the credential.
    pub closed spec fn spec_location_start(&self) -> int {
        self.segment_location_start as int
    }

    /// Index of the last JWT word overlapping the credential.
    pub closed spec fn spec_location_end(&self) -> int {
        self.segment_location_end as int
    }

    /// Byte offset inside the start boundary word where real bytes begin.
    pub closed spec fn spec_start_offset(&self) -> int {
        self.segment_start_offset as int
    }

    /// Byte offset inside the end boundary word where real bytes end.
    pub closed spec fn spec_end_offset(&self) -> int {
        self.segment_end_offset as int
    }

    /// Byte index of the credential's first occurrence inside the JWT.
    pub open spec fn spec_byte_position(&self) -> int {
        self.spec_location_start() * 4 + self.spec_start_offset()
    }

    /// SHA-256 digest of the JWT bytes.
    pub closed spec fn spec_digest_jwt(&self) -> Seq<u8> {
        self.digest_jwt@
    }

    /// SHA-256 digest of the aligned credential bytes.
    pub closed spec fn spec_digest_credential(&self) -> Seq<u8> {
        self.digest_credential@
    }

    /// Everything construction guarantees: the credential occurs in the JWT
    /// at the position the location/offset pair encodes and nowhere earlier,
    /// the aligned credential is the zero-padded copy at that position, and
    /// the digests are the SHA-256 digests of document and aligned credential.
    #[verifier::type_invariant]
    pub open spec fn inv(&self) -> bool {
        let p = self.spec_byte_position();
        let n = self.spec_credential().len() as int;
        &&& self.spec_credential().len() >= 1
        &&& self.spec_jwt().len() <= usize::MAX / 16
        &&& 0 <= self.spec_location_start()
        &&& 0 <= self.spec_start_offset() < 4
        &&& 0 <= self.spec_end_offset() < 4
        &&& matches_at(self.spec_jwt(), self.spec_credential(), p)
        &&& forall|j: int| 0 <= j < p ==> !matches_at(self.spec_jwt(), self.spec_credential(), j)
        &&& self.spec_start_offset() == p % 4
        &&& self.spec_location_start() == p / 4
        &&& self.spec_location_end() == (p + n) / 4
        &&& self.spec_end_offset() == (p + n) % 4
        &&& self.spec_aligned() == zero_bytes(self.spec_start_offset() as nat)
            + self.spec_credential() + zero_bytes(self.spec_end_offset() as nat)
        &&& self.spec_digest_jwt() == sha256_of(self.spec_jwt())
        &&& self.spec_digest_credential() == sha256_of(self.spec_aligned())
    }


    /// Precomputes the witness from string slices.
    pub fn new(jwt: &str, credential: &str) -> (r: Result<Self, PrecomputeError>)
        requires
            credential.spec_bytes().len() >= 1,
            jwt.spec_bytes().len() <= usize::MAX / 16,
        ensures
            r.is_ok() <==> contains_subsequence(jwt.spec_bytes(), credential.spec_bytes()),
            match r {
                Ok(w) => w.spec_jwt() == jwt.spec_bytes() && w.spec_credential()
                    == credential.spec_bytes(),
                Err(e) => e == PrecomputeError::CredentialNotFound,
            },
    {
        let jwt = jwt.as_bytes();
        let credential = credential.as_bytes();

        Self::new_with_bytes(jwt, credential)
    }

    /// Precomputes the witness: finds the credential's first occurrence in
    /// the JWT, derives the word locations and sub-word offsets, builds the
    /// aligned credential and computes both SHA-256 digests. Fails with
    /// `CredentialNotFound` exactly when the credential is absent.
    pub fn new_with_bytes(jwt: &[u8], credential: &[u8]) -> (r: Result<Self, PrecomputeError>)
        requires
            credential@.len() >= 1,
            jwt@.len() <= usize::MAX / 16,
        ensures
            r.is_ok() <==> contains_subsequence(jwt@, credential@),
            match r {
                Ok(w) => {
                    let p = w.spec_byte_position();
                    let n = credential@.len() as int;
                    &&& w.spec_jwt() == jwt@
                    &&& w.spec_credential() == credential@
                    &&& matches_at(jwt@, credential@, p)
                    &&& forall|j: int| 0 <= j < p ==> !matches_at(jwt@, credential@, j)
                    &&& 0 <= w.spec_start_offset() < 4
                    &&& 0 <= w.spec_end_offset() < 4
                    &&& w.spec_location_start() == p / 4
                    &&& w.spec_start_offset() == p % 4
                    &&& w.spec_location_end() == (p + n) / 4
                    &&& w.spec_end_offset() == (p + n) % 4
                    &&& w.spec_aligned() == zero_bytes(w.spec_start_offset() as nat) + credential@
                        + zero_bytes(w.spec_end_offset() as nat)
                    &&& w.spec_digest_jwt() == sha256_of(jwt@)
                    &&& w.spec_digest_credential() == sha256_of(w.spec_aligned())
                },
                Err(e) => e == PrecomputeError::CredentialNotFound,
            },
    {
        let credential_len = credential.len();

        let byte_position = match find_position(jwt, credential) {
            Some(p) => p,
            None => {
                return Err(PrecomputeError::CredentialNotFound);
            },
        };

        let segment_location_start = byte_position / 4;
        let segment_location_end = (byte_position + credential_len) / 4;
        let segment_start_offset = byte_position % 4;
        let segment_end_offset = (byte_position + credential_len) % 4;

        let padded_credential = pad_bytes_front_n_end(
            credential,
            segment_start_offset,
            segment_end_offset,
        );

        let digest_jwt = sha256_hash_bytes_digests(jwt);
        let digest_credential = sha256_hash_bytes_digests(padded_credential.as_slice());

        let w = PreComputed {
            jwt_bytes: slice_to_vec(jwt),
            original_credential_bytes: slice_to_vec(credential),
            credential_bytes: padded_credential,

            segment_location_start,
            segment_location_end,
            segment_start_offset,
            segment_end_offset,

            digest_jwt,
            digest_credential,
        };
        proof {
            assert(w.spec_byte_position() == byte_position) by {
                assert(segment_location_start * 4 + segment_start_offset == byte_position);
            }
        }
        Ok(w)
    }

    /// The two SHA-256 preimages in gadget witness form: the padded JWT and
    /// the padded aligned credential, as big-endian 32-bit words.
    pub fn preimage_as_blockwords(&self) -> (r: [Vec<BlockWord>; 2])
        ensures
            r[0]@.len() == words_of(sha256_pad(self.spec_jwt())).len(),
            forall|k: int|
                0 <= k < r[0]@.len() ==> r[0]@[k].0 as int == words_of(
                    sha256_pad(self.spec_jwt()),
                )[k],
            r[1]@.len() == words_of(sha256_pad(self.spec_aligned())).len(),
            forall|k: int|
                0 <= k < r[1]@.len() ==> r[1]@[k].0 as int == words_of(
                    sha256_pad(self.spec_aligned()),
                )[k],
            r[0]@.len() % 16 == 0,
            r[1]@.len() % 16 == 0,
    {
        proof {
            use_type_invariant(&*self);
        }
        let padded_message_jwt = pad_sha256_bytes(self.jwt_bytes.as_slice());
        let padded_message_credential = pad_sha256_bytes(self.credential_bytes.as_slice());

        let u32_padded_jwt = bytes_to_u32_array(padded_message_jwt.as_slice());
        let u32_padded_credential = bytes_to_u32_array(padded_message_credential.as_slice());

        proof {
            lemma_block_word_count(padded_message_jwt@.len() as int);
            lemma_block_word_count(padded_message_credential@.len() as int);
        }

        [
            u32_array_to_blockwords(u32_padded_jwt.as_slice()),
            u32_array_to_blockwords(u32_padded_credential.as_slice()),
        ]
    }

    /// The two expected digests in gadget witness form: eight big-endian
    /// 32-bit words each, for the JWT and the aligned credential.
    pub fn expected_digest_as_blockwords(&self) -> (r: [Vec<BlockWord>; 2])
        ensures
            r[0]@.len() == 8,
            r[1]@.len() == 8,
            sha256_of(self.spec_jwt()).len() == 32,
            sha256_of(self.spec_aligned()).len() == 32,
            forall|k: int|
                0 <= k < 8 ==> r[0]@[k].0 as int == word_at(sha256_of(self.spec_jwt()), k),
            forall|k: int|
                0 <= k < 8 ==> r[1]@[k].0 as int == word_at(sha256_of(self.spec_aligned()), k),
    {
        proof {
            use_type_invariant(&*self);
        }
        let digest_jwt = bytes_to_u32_array(self.digest_jwt.as_slice());
        let digest_credential = bytes_to_u32_array(self.digest_credential.as_slice());

        [
            u32_array_to_blockwords(digest_jwt.as_slice()),
            u32_array_to_blockwords(digest_credential.as_slice()),
        ]
    }

    /// The public-input vector: the eight JWT digest words, the eight
    /// aligned-credential digest words, then the start and end offsets, as
    /// the unsigned integers the driver embeds into field elements.
    pub fn public_inputs(&self) -> (r: Vec<u64>)
        ensures
            r@.len() == 18,
            forall|k: int|
                0 <= k < 8 ==> r@[k] as int == word_at(sha256_of(self.spec_jwt()), k),
            forall|k: int|
                8 <= k < 16 ==> r@[k] as int == word_at(sha256_of(self.spec_aligned()), k - 8),
            r@[16] as int == self.spec_start_offset(),
            r@[17] as int == self.spec_end_offset(),
    {
        proof {
            use_type_invariant(&*self);
        }
        let digest_jwt_u32 = bytes_to_u32_array(self.digest_jwt.as_slice());
        let digest_credential_u32 = bytes_to_u32_array(self.digest_credential.as_slice());

        let mut result: Vec<u64> = Vec::new();
        let mut i: usize = 0;
        while i < 8
            invariant
                i <= 8,
                i == result@.len(),
                digest_jwt_u32@.len() == 8,
                forall|k: int|
                    0 <= k < digest_jwt_u32@.len() ==> digest_jwt_u32@[k] as int == word_at(
                        self.spec_digest_jwt(),
                        k,
                    ),
                forall|k: int| 0 <= k < i ==> result@[k] == digest_jwt_u32@[k] as u64,
            decreases 8 - i,
        {
            result.push(digest_jwt_u32[i] as u64);
            i = i + 1;
        }
        let mut j: usize = 0;
        while j < 8
            invariant
                j <= 8,
                j + 8 == result@.len(),
                digest_jwt_u32@.len() == 8,
                digest_credential_u32@.len() == 8,
                forall|k: int|
                    0 <= k < digest_jwt_u32@.len() ==> digest_jwt_u32@[k] as int == word_at(
                        self.spec_digest_jwt(),
                        k,
                    ),
                forall|k: int|
                    0 <= k < digest_credential_u32@.len() ==> digest_credential_u32@[k] as int
                        == word_at(self.spec_digest_credential(), k),
                forall|k: int| 0 <= k < 8 ==> result@[k] == digest_jwt_u32@[k] as u64,
                forall|k: int| 8 <= k < result@.len() ==> result@[k] == digest_credential_u32@[
                    k - 8
                ] as u64,
            decreases 8 - j,
        {
            result.push(digest_credential_u32[j] as u64);
            j = j + 1;
        }

        result.push(self.segment_start_offset as u64);
        result.push(self.segment_end_offset as u64);

        result
    }

    /// The first and last JWT word indices overlapping the credential.
    pub fn segment_location(&self) -> (r: (usize, usize))
        ensures
            r.0 as int == self.spec_location_start(),
            r.1 as int == self.spec_location_end(),
    {
        (self.segment_location_start, self.segment_location_end)
    }

    /// The sub-word byte offsets where the credential's real bytes begin and
    /// end inside the two boundary words.
    pub fn segment_offset(&self) -> (r: (usize, usize))
        ensures
            r.0 as int == self.spec_start_offset(),
            r.1 as int == self.spec_end_offset(),
            0 <= r.0 < 4,
            0 <= r.1 < 4,
    {
        proof {
            use_type_invariant(&*self);
        }
        (self.segment_start_offset, self.segment_end_offset)
    }

    /// The aligned credential bytes: the credential prefixed with
    /// `start_offset` and suffixed with `end_offset` zero bytes.
    pub fn aligned_credential_bytes(&self) -> (r: &Vec<u8>)
        ensures
            r@ == self.spec_aligned(),
    {
        &self.credential_bytes
    }

    /// The original credential bytes.
    pub fn credential_bytes(&self) -> (r: &Vec<u8>)
        ensures
            r@ == self.spec_credential(),
    {
        &self.original_credential_bytes
    }

    /// The JWT bytes.
    pub fn jwt_bytes(&self) -> (r: &Vec<u8>)
        ensures
            r@ == self.spec_jwt(),
    {
        &self.jwt_bytes
    }

    /// The SHA-256 digests of the JWT and of the aligned credential.
    pub fn digests(&self) -> (r: ([u8; 32], [u8; 32]))
        ensures
            r.0@ == sha256_of(self.spec_jwt()),
            r.1@ == sha256_of(self.spec_aligned()),
    {
        proof {
            use_type_invariant(&*self);
        }
        (self.digest_jwt, self.digest_credential)
    }
}

/// Alignment round trip: stripping the `start_offset` leading and the
/// `end_offset` trailing zero bytes from the aligned credential recovers
/// exactly the original credential.
pub proof fn lemma_alignment_round_trip(w: PreComputed)
    requires
        w.inv(),
    ensures
        w.spec_aligned().len() == w.spec_start_offset() + w.spec_credential().len()
            + w.spec_end_offset(),
        w.spec_aligned().subrange(
            w.spec_start_offset(),
            w.spec_start_offset() + w.spec_credential().len(),
        ) == w.spec_credential(),
{
    let s = w.spec_start_offset();
    let n = w.spec_credential().len() as int;
    assert(w.spec_aligned().subrange(s, s + n) =~= w.spec_credential());
}

/// Byte-exact first-occurrence search, shared by construction paths.
fn find_position(jwt: &[u8], credential: &[u8]) -> (r: Option<usize>)
    requires
        credential@.len() >= 1,
    ensures
        match r {
            Some(i) => matches_at(jwt@, credential@, i as int) && forall|j: int|
                0 <= j < i ==> !matches_at(jwt@, credential@, j),
            None => !contains_subsequence(jwt@, credential@),
        },
        r.is_some() <==> contains_subsequence(jwt@, credential@),
{
    let r = crate::util::find_subsequence_u8(jwt, credential);
    proof {
        if r.is_some() {
            assert(contains_subsequence(jwt@, credential@));
        }
    }
    r
}

/// A 64-byte-block byte count yields a word count that is a multiple of 16.
proof fn lemma_block_word_count(len: int)
    requires
        len >= 0,
        len % 64 == 0,
    ensures
        (len / 4) % 16 == 0,
        (len / 4) % 8 == 0,
{
    assert((len / 4) % 16 == 0 && (len / 4) % 8 == 0) by (nonlinear_arith)
        requires
            len >= 0,
            len % 64 == 0,
    ;
}

} // verus!
