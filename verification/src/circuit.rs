//! Inclusion-proof circuit logic: the ordered list of constraint-system
//! assertions that certify, in-circuit, that the aligned credential coincides
//! with the JWT over the overlapping word range and that both preimages hash
//! to the expected digests.
//!
//! The generic constraint system, the arithmetic gate and the SHA-256 digest
//! gadget are external capabilities consumed only at their interface, so the
//! logic here produces a [`InclusionPlan`]: the exact sequence of witness
//! values and assertions the driver replays against the real gates, in
//! constraint-composition order. A plan is satisfiable exactly when every
//! recorded assertion holds of its witness values, which
//! [`InclusionPlan::satisfied`] states and [`InclusionPlan::is_satisfied`]
//! decides.

use vstd::prelude::*;

use crate::digest::sha256_hash_bytes_digests;
use crate::digest::sha256_of;
use crate::precompute::PreComputed;
use crate::util::{bytes_to_u32_array, pad_sha256_bytes, pow256, sha256_pad, word_at, words_of};

verus! {

/// Internal invariant violation during circuit synthesis.
#[derive(Clone, Copy, Debug, PartialEq, Eq, Structural)]
pub enum SynthesisError {
    /// A padded preimage word sequence is not a multiple of 16 words
    /// (512-bit blocks), so the digest gadget cannot consume it.
    MalformedPreimageLength,
    /// A bit decomposition did not yield exactly 32 bits.
    DigestWidthMismatch,
}

/// One asserted relation between a JWT word and an aligned-credential word.
#[derive(Clone, Copy, Debug, PartialEq, Eq, Structural)]
pub struct WordCheck {
    /// The JWT preimage word loaded into the constraint system.
    pub jwt_word: u32,
    /// The aligned-credential preimage word loaded into the constraint system.
    pub credential_word: u32,
}

/// One asserted equality between a gadget-computed digest word and the
/// externally supplied expected digest word.
#[derive(Clone, Copy, Debug, PartialEq, Eq, Structural)]
pub struct DigestCheck {
    /// The digest word the in-circuit gadget computed from the preimage.
    pub computed: u32,
    /// The expected digest word supplied as a witness and exposed publicly.
    pub expected: u32,
}

/// The constraint-system operations of one synthesis pass, in composition
/// order: the optional start-boundary masking check, the interior word
/// equalities, the optional end-boundary masking check, the two offset
/// witnesses, the sixteen digest bindings, and the 18-entry public-input
/// vector.
#[derive(Debug, PartialEq, Eq)]
pub struct InclusionPlan {
    /// Present exactly when `start_offset != 0`: the difference of the two
    /// start boundary words is decomposed into 32 bits and the low-order
    /// `start_offset * 8` bits are asserted zero.
    pub start_check: Option<WordCheck>,
    /// Word pairs asserted directly equal, for credential word offsets
    /// strictly between the two boundary words.
    pub interior_checks: Vec<WordCheck>,
    /// Present exactly when `end_offset != 0`: the difference of the two end
    /// boundary words is decomposed into 32 bits and the high-order
    /// `32 - end_offset * 8` bits are asserted zero.
    pub end_check: Option<WordCheck>,
    /// The eight JWT digest bindings.
    pub digest_checks_jwt: Vec<DigestCheck>,
    /// The eight aligned-credential digest bindings.
    pub digest_checks_credential: Vec<DigestCheck>,
    /// The start offset witness, exposed at public-input slot 16.
    pub start_offset: usize,
    /// The end offset witness, exposed at public-input slot 17.
    pub end_offset: usize,
    /// The public-input vector: JWT digest words at slots 0-7, credential
    /// digest words at slots 8-15, the two offsets at slots 16 and 17.
    pub public_inputs: Vec<u64>,
}

/// The start-boundary constraint holds of its witness words: their
/// difference is a 32-bit value whose low-order `start_offset * 8` bits are
/// zero. A difference that wraps in the field is not representable in 32
/// bits, so its decomposition is unsatisfiable.
pub open spec fn start_boundary_ok(c: WordCheck, start_offset: int) -> bool {
    &&& c.jwt_word >= c.credential_word
    &&& (c.jwt_word - c.credential_word) % (pow256(start_offset as nat) as int) == 0
}

/// The end-boundary constraint holds of its witness words: their difference
/// is a 32-bit value whose high-order `32 - end_offset * 8` bits are zero.
pub open spec fn end_boundary_ok(c: WordCheck, end_offset: int) -> bool {
    &&& c.jwt_word >= c.credential_word
    &&& c.jwt_word - c.credential_word < pow256(end_offset as nat) as int
}

impl InclusionPlan {
    /// Every assertion the plan records holds of its witness values; the
    /// constraint system a driver builds from the plan is satisfiable exactly
    /// under this condition.
    pub open spec fn satisfied(&self) -> bool {
        &&& (match self.start_check {
            Some(c) => start_boundary_ok(c, self.start_offset as int),
            None => true,
        })
        &&& (forall|k: int|
            0 <= k < self.interior_checks@.len() ==> (#[trigger] self.interior_checks@[k]).jwt_word
                == self.interior_checks@[k].credential_word)
        &&& (match self.end_check {
            Some(c) => end_boundary_ok(c, self.end_offset as int),
            None => true,
        })
        &&& (forall|k: int|
            0 <= k < self.digest_checks_jwt@.len() ==> (
            #[trigger] self.digest_checks_jwt@[k]).computed
                == self.digest_checks_jwt@[k].expected)
        &&& (forall|k: int|
            0 <= k < self.digest_checks_credential@.len() ==> (
            #[trigger] self.digest_checks_credential@[k]).computed
                == self.digest_checks_credential@[k].expected)
    }

    /// Decides [`InclusionPlan::satisfied`].
    pub fn is_satisfied(&self) -> (r: bool)
        ensures
            r == self.satisfied(),
    {
        let start_ok = match self.start_check {
            Some(c) => boundary_start_holds(c, self.start_offset),
            None => true,
        };
        let end_ok = match self.end_check {
            Some(c) => boundary_end_holds(c, self.end_offset),
            None => true,
        };
        let mut interior_ok = true;
        let mut i: usize = 0;
        while i < self.interior_checks.len()
            invariant
                i <= self.interior_checks@.len(),
                interior_ok <==> forall|k: int|
                    0 <= k < i ==> (#[trigger] self.interior_checks@[k]).jwt_word
                        == self.interior_checks@[k].credential_word,
            decreases self.interior_checks@.len() - i,
        {
            let c = self.interior_checks[i];
            if c.jwt_word != c.credential_word {
                interior_ok = false;
            }
            i = i + 1;
        }
        let mut digests_ok = true;
        let mut j: usize = 0;
        while j < self.digest_checks_jwt.len()
            invariant
                j <= self.digest_checks_jwt@.len(),
                digests_ok <==> forall|k: int|
                    0 <= k < j ==> (#[trigger] self.digest_checks_jwt@[k]).computed
                        == self.digest_checks_jwt@[k].expected,
            decreases self.digest_checks_jwt@.len() - j,
        {
            let c = self.digest_checks_jwt[j];
            if c.computed != c.expected {
                digests_ok = false;
            }
            j = j + 1;
        }
        let mut digests_credential_ok = true;
        let mut t: usize = 0;
        while t < self.digest_checks_credential.len()
            invariant
                t <= self.digest_checks_credential@.len(),
                digests_credential_ok <==> forall|k: int|
                    0 <= k < t ==> (#[trigger] self.digest_checks_credential@[k]).computed
                        == self.digest_checks_credential@[k].expected,
            decreases self.digest_checks_credential@.len() - t,
        {
            let c = self.digest_checks_credential[t];
            if c.computed != c.expected {
                digests_credential_ok = false;
            }
            t = t + 1;
        }
        start_ok && interior_ok && end_ok && digests_ok && digests_credential_ok
    }
}

/// `256 ^ k` for the sub-word offsets, as a 64-bit value.
fn pow256_u64(k: usize) -> (r: u64)
    requires
        k <= 4,
    ensures
        r as nat == pow256(k as nat),
        r >= 1,
{
    proof {
        lemma_pow256_small();
    }
    if k == 0 {
        1
    } else if k == 1 {
        256
    } else if k == 2 {
        65536
    } else if k == 3 {
        16777216
    } else {
        4294967296
    }
}

/// The first five powers of 256.
proof fn lemma_pow256_small()
    ensures
        pow256(0) == 1,
        pow256(1) == 256,
        pow256(2) == 65536,
        pow256(3) == 16777216,
        pow256(4) == 4294967296,
{
    assert(pow256(0) == 1);
    assert(pow256(1) == 256 * pow256(0));
    assert(pow256(2) == 256 * pow256(1));
    assert(pow256(3) == 256 * pow256(2));
    assert(pow256(4) == 256 * pow256(3));
}

/// `pow256` grows with its exponent.
proof fn lemma_pow256_increases(a: nat, b: nat)
    requires
        a <= b,
    ensures
        pow256(a) <= pow256(b),
    decreases b,
{
    if a < b {
        lemma_pow256_increases(a, (b - 1) as nat);
        assert(pow256(b) == 256 * pow256((b - 1) as nat));
    }
}

/// Decides the start-boundary constraint for arbitrary witness words.
fn boundary_start_holds(c: WordCheck, start_offset: usize) -> (r: bool)
    ensures
        r == start_boundary_ok(c, start_offset as int),
{
    if c.jwt_word < c.credential_word {
        return false;
    }
    let diff = c.jwt_word - c.credential_word;
    if start_offset >= 4 {
        proof {
            lemma_pow256_small();
            lemma_pow256_increases(4, start_offset as nat);
            if diff as int % (pow256(start_offset as nat) as int) == 0 {
                assert(diff as int == 0 || diff as int >= pow256(start_offset as nat)) by (
                nonlinear_arith)
                    requires
                        diff as int % (pow256(start_offset as nat) as int) == 0,
                        pow256(start_offset as nat) > 0,
                        diff >= 0,
                ;
            }
        }
        diff == 0
    } else {
        let m = pow256_u64(start_offset);
        (diff as u64) % m == 0
    }
}

/// Decides the end-boundary constraint for arbitrary witness words.
fn boundary_end_holds(c: WordCheck, end_offset: usize) -> (r: bool)
    ensures
        r == end_boundary_ok(c, end_offset as int),
{
    if c.jwt_word < c.credential_word {
        return false;
    }
    let diff = c.jwt_word - c.credential_word;
    if end_offset >= 4 {
        proof {
            lemma_pow256_small();
            lemma_pow256_increases(4, end_offset as nat);
        }
        true
    } else {
        let m = pow256_u64(end_offset);
        (diff as u64) < m
    }
}

/// The exact content of a composed plan, over the word sequences and the
/// location/offset pairs of the witness. The end boundary compares the JWT
/// word at `location_end` with the credential word that follows the interior
/// range, which is word `location_end - location_start`, or word 1 when the
/// overlap stays inside a single JWT word.
pub open spec fn plan_shape(
    plan: InclusionPlan,
    jwt_words: Seq<int>,
    credential_words: Seq<int>,
    computed_jwt: Seq<int>,
    computed_credential: Seq<int>,
    expected_jwt: Seq<int>,
    expected_credential: Seq<int>,
    location_start: int,
    location_end: int,
    start_offset: int,
    end_offset: int,
) -> bool {
    let interior_count = if location_end > location_start {
        location_end - location_start - 1
    } else {
        0
    };
    let end_index = if location_end - location_start >= 1 {
        location_end - location_start
    } else {
        1
    };
    &&& plan.start_offset as int == start_offset
    &&& plan.end_offset as int == end_offset
    &&& (plan.start_check is Some <==> start_offset != 0)
    &&& (start_offset != 0 ==> (plan.start_check matches Some(c) && c.jwt_word as int
        == jwt_words[location_start] && c.credential_word as int == credential_words[0]))
    &&& plan.interior_checks@.len() == interior_count
    &&& (forall|k: int|
        0 <= k < interior_count ==> (#[trigger] plan.interior_checks@[k]).jwt_word as int
            == jwt_words[location_start + 1 + k] && plan.interior_checks@[k].credential_word as int
            == credential_words[1 + k])
    &&& (plan.end_check is Some <==> end_offset != 0)
    &&& (end_offset != 0 ==> (plan.end_check matches Some(c) && c.jwt_word as int
        == jwt_words[location_end] && c.credential_word as int == credential_words[end_index]))
    &&& plan.digest_checks_jwt@.len() == 8
    &&& (forall|k: int|
        0 <= k < 8 ==> (#[trigger] plan.digest_checks_jwt@[k]).computed as int == computed_jwt[k]
            && plan.digest_checks_jwt@[k].expected as int == expected_jwt[k])
    &&& plan.digest_checks_credential@.len() == 8
    &&& (forall|k: int|
        0 <= k < 8 ==> (#[trigger] plan.digest_checks_credential@[k]).computed as int
            == computed_credential[k] && plan.digest_checks_credential@[k].expected as int
            == expected_credential[k])
    &&& plan.public_inputs@.len() == 18
    &&& (forall|k: int| 0 <= k < 8 ==> (#[trigger] plan.public_inputs@[k]) as int == expected_jwt[k])
    &&& (forall|k: int|
        8 <= k < 16 ==> (#[trigger] plan.public_inputs@[k]) as int == expected_credential[k - 8])
    &&& plan.public_inputs@[16] as int == start_offset
    &&& plan.public_inputs@[17] as int == end_offset
}

/// The view of a word vector as a sequence of integers.
pub open spec fn words_int(v: Seq<u32>) -> Seq<int> {
    v.map_values(|w: u32| w as int)
}

/// Composes the inclusion-proof constraints from the witness projections, in
/// the order the constraint system receives them: the start boundary check
/// when `segment_start_offset != 0`, direct equality for every interior word,
/// the end boundary check when `segment_end_offset != 0`, the two offset
/// witnesses, the sixteen digest bindings, and the public-input vector.
///
/// The gadget-computed digest words arrive as arguments because the digest
/// gadget is an external capability: the plan records, for whatever words the
/// gadget produced, which equalities are asserted against the expected
/// digests, so the result is unsatisfiable whenever they disagree.
pub fn compose_inclusion_proof(
    preimage_jwt: &Vec<u32>,
    preimage_credential: &Vec<u32>,
    computed_digest_jwt: &Vec<u32>,
    computed_digest_credential: &Vec<u32>,
    expected_digest_jwt: &Vec<u32>,
    expected_digest_credential: &Vec<u32>,
    segment_location_start: usize,
    segment_location_end: usize,
    segment_start_offset: usize,
    segment_end_offset: usize,
) -> (r: Result<InclusionPlan, SynthesisError>)
    requires
        computed_digest_jwt@.len() == 8,
        computed_digest_credential@.len() == 8,
        expected_digest_jwt@.len() == 8,
        expected_digest_credential@.len() == 8,
        segment_location_start <= segment_location_end,
        segment_location_end < preimage_jwt@.len(),
        segment_location_end - segment_location_start < preimage_credential@.len(),
        preimage_credential@.len() >= 2,
        segment_start_offset < 4,
        segment_end_offset < 4,
    ensures
        r.is_ok() <==> (preimage_jwt@.len() % 16 == 0 && preimage_credential@.len() % 16 == 0),
        match r {
            Ok(plan) => plan_shape(
                plan,
                words_int(preimage_jwt@),
                words_int(preimage_credential@),
                words_int(computed_digest_jwt@),
                words_int(computed_digest_credential@),
                words_int(expected_digest_jwt@),
                words_int(expected_digest_credential@),
                segment_location_start as int,
                segment_location_end as int,
                segment_start_offset as int,
                segment_end_offset as int,
            ),
            Err(e) => e == SynthesisError::MalformedPreimageLength,
        },
{
    if preimage_jwt.len() % 16 != 0 || preimage_credential.len() % 16 != 0 {
        return Err(SynthesisError::MalformedPreimageLength);
    }

    let mut start_check: Option<WordCheck> = None;
    if segment_start_offset != 0 {
        let jwt_value = preimage_jwt[segment_location_start];
        let credential_value = preimage_credential[0];
        if jwt_value >= credential_value {
            let sub_bits = to_bits_le_32(jwt_value - credential_value);
            if sub_bits.len() != 32 {
                return Err(SynthesisError::DigestWidthMismatch);
            }
        }
        start_check = Some(WordCheck { jwt_word: jwt_value, credential_word: credential_value });
    }

    let mut interior_checks: Vec<WordCheck> = Vec::new();
    let jwt_word_count: usize = preimage_jwt.len();
    let mut segment_offset: usize = 1;
    loop
        invariant
            1 <= segment_offset,
            segment_location_start <= segment_location_end,
            segment_location_start + segment_offset <= segment_location_end + 1,
            segment_location_end < jwt_word_count,
            jwt_word_count == preimage_jwt@.len(),
            segment_location_end - segment_location_start < preimage_credential@.len(),
            segment_offset <= if segment_location_end > segment_location_start {
                (segment_location_end - segment_location_start) as int
            } else {
                1
            },
            interior_checks@.len() == segment_offset - 1,
            forall|k: int|
                0 <= k < interior_checks@.len() ==> (#[trigger] interior_checks@[k]).jwt_word
                    == preimage_jwt@[segment_location_start + 1 + k]
                    && interior_checks@[k].credential_word == preimage_credential@[1 + k],
        ensures
            segment_offset == if segment_location_end - segment_location_start >= 1 {
                (segment_location_end - segment_location_start) as int
            } else {
                1
            },
            interior_checks@.len() == (if segment_location_end > segment_location_start {
                (segment_location_end - segment_location_start - 1) as int
            } else {
                0
            }),
            forall|k: int|
                0 <= k < interior_checks@.len() ==> (#[trigger] interior_checks@[k]).jwt_word
                    == preimage_jwt@[segment_location_start + 1 + k]
                    && interior_checks@[k].credential_word == preimage_credential@[1 + k],
        decreases segment_location_end - segment_location_start - segment_offset + 1,
    {
        if segment_location_start + segment_offset >= segment_location_end {
            break;
        }

        let jwt_value = preimage_jwt[segment_location_start + segment_offset];
        let credential_value = preimage_credential[segment_offset];
        interior_checks.push(
            WordCheck { jwt_word: jwt_value, credential_word: credential_value },
        );

        segment_offset = segment_offset + 1;
    }

    let mut end_check: Option<WordCheck> = None;
    if segment_end_offset != 0 {
        let jwt_value = preimage_jwt[segment_location_end];
        let credential_value = preimage_credential[segment_offset];
        if jwt_value >= credential_value {
            let sub_bits = to_bits_le_32(jwt_value - credential_value);
            if sub_bits.len() != 32 {
                return Err(SynthesisError::DigestWidthMismatch);
            }
        }
        end_check = Some(WordCheck { jwt_word: jwt_value, credential_word: credential_value });
    }

    let mut digest_checks_jwt: Vec<DigestCheck> = Vec::new();
    let mut digest_checks_credential: Vec<DigestCheck> = Vec::new();
    let mut index: usize = 0;
    while index < 8
        invariant
            index <= 8,
            computed_digest_jwt@.len() == 8,
            computed_digest_credential@.len() == 8,
            expected_digest_jwt@.len() == 8,
            expected_digest_credential@.len() == 8,
            digest_checks_jwt@.len() == index,
            digest_checks_credential@.len() == index,
            forall|k: int|
                0 <= k < index ==> (#[trigger] digest_checks_jwt@[k]).computed
                    == computed_digest_jwt@[k] && digest_checks_jwt@[k].expected
                    == expected_digest_jwt@[k],
            forall|k: int|
                0 <= k < index ==> (#[trigger] digest_checks_credential@[k]).computed
                    == computed_digest_credential@[k] && digest_checks_credential@[k].expected
                    == expected_digest_credential@[k],
        decreases 8 - index,
    {
        digest_checks_jwt.push(
            DigestCheck {
                computed: computed_digest_jwt[index],
                expected: expected_digest_jwt[index],
            },
        );
        digest_checks_credential.push(
            DigestCheck {
                computed: computed_digest_credential[index],
                expected: expected_digest_credential[index],
            },
        );
        index = index + 1;
    }

    let mut public_inputs: Vec<u64> = Vec::new();
    let mut slot: usize = 0;
    while slot < 8
        invariant
            slot <= 8,
            expected_digest_jwt@.len() == 8,
            public_inputs@.len() == slot,
            forall|k: int|
                0 <= k < slot ==> (#[trigger] public_inputs@[k]) == expected_digest_jwt@[k] as u64,
        decreases 8 - slot,
    {
        public_inputs.push(expected_digest_jwt[slot] as u64);
        slot = slot + 1;
    }
    let mut slot2: usize = 0;
    while slot2 < 8
        invariant
            slot2 <= 8,
            expected_digest_jwt@.len() == 8,
            expected_digest_credential@.len() == 8,
            public_inputs@.len() == slot2 + 8,
            forall|k: int|
                0 <= k < 8 ==> (#[trigger] public_inputs@[k]) == expected_digest_jwt@[k] as u64,
            forall|k: int|
                8 <= k < public_inputs@.len() ==> (#[trigger] public_inputs@[k])
                    == expected_digest_credential@[k - 8] as u64,
        decreases 8 - slot2,
    {
        public_inputs.push(expected_digest_credential[slot2] as u64);
        slot2 = slot2 + 1;
    }
    public_inputs.push(segment_start_offset as u64);
    public_inputs.push(segment_end_offset as u64);

    Ok(
        InclusionPlan {
            start_check,
            interior_checks,
            end_check,
            digest_checks_jwt,
            digest_checks_credential,
            start_offset: segment_start_offset,
            end_offset: segment_end_offset,
            public_inputs,
        },
    )
}

/// The eight 32-bit words of a message's SHA-256 digest, big-endian.
pub open spec fn digest_words(msg: Seq<u8>) -> Seq<int> {
    Seq::new(8, |k: int| word_at(sha256_of(msg), k))
}

/// The SHA-256-padded form of a `len`-byte message is a whole number of
/// 64-byte blocks, so its word count is a multiple of 16, at least 16, and
/// exceeds the message's own word count by at least two.
proof fn lemma_pad_word_bounds(len: int)
    requires
        0 <= len,
    ensures
        (64 * ((len + 72) / 64)) % 4 == 0,
        ((64 * ((len + 72) / 64)) / 4) % 16 == 0,
        (64 * ((len + 72) / 64)) / 4 >= len / 4 + 2,
        (64 * ((len + 72) / 64)) / 4 >= 16,
{
    let q = (len + 72) / 64;
    vstd::arithmetic::div_mod::lemma_fundamental_div_mod(len + 72, 64);
    assert(64 * q >= len + 9);
    assert(q >= 1);
    assert(64 * q == 4 * (16 * q)) by (nonlinear_arith);
    vstd::arithmetic::div_mod::lemma_div_by_multiple(16 * q, 4);
    assert((64 * q) / 4 == 16 * q);
    vstd::arithmetic::div_mod::lemma_mod_multiples_basic(16 * q, 4);
    vstd::arithmetic::div_mod::lemma_mod_multiples_basic(q, 16);
    assert((16 * q) % 16 == 0);
    vstd::arithmetic::div_mod::lemma_div_is_ordered(len + 9, 64 * q, 4);
    assert((len + 9) / 4 >= len / 4 + 2) by {
        vstd::arithmetic::div_mod::lemma_fundamental_div_mod(len, 4);
        let d = len / 4;
        let m = len % 4;
        vstd::arithmetic::div_mod::lemma_fundamental_div_mod_converse(len + 8, 4, d + 2, m);
        vstd::arithmetic::div_mod::lemma_div_is_ordered(len + 8, len + 9, 4);
    }
    assert(16 * q >= 16) by (nonlinear_arith)
        requires
            q >= 1,
    ;
}

/// The private witness holder for one proof instance.
#[derive(Debug, PartialEq, Eq)]
pub struct JwtCircuit {
    precomputed: PreComputed,
}

impl JwtCircuit {
    /// The witness this circuit instance constrains.
    pub closed spec fn spec_precomputed(&self) -> PreComputed {
        self.precomputed
    }

    /// Wraps a precomputed witness for synthesis.
    pub fn new(precomputed: PreComputed) -> (r: Self)
        ensures
            r.spec_precomputed() == precomputed,
    {
        Self { precomputed }
    }

    /// The number of public-input slots of the single instance column.
    pub fn num_instance() -> (r: Vec<usize>)
        ensures
            r@.len() == 1,
            r@[0] == 18,
    {
        let mut v: Vec<usize> = Vec::new();
        v.push(18);
        v
    }

    /// The public-input vector of this instance.
    pub fn instances(&self) -> (r: Vec<u64>)
        ensures
            r@.len() == 18,
            forall|k: int|
                0 <= k < 8 ==> (#[trigger] r@[k]) as int == word_at(
                    sha256_of(self.spec_precomputed().spec_jwt()),
                    k,
                ),
            forall|k: int|
                8 <= k < 16 ==> (#[trigger] r@[k]) as int == word_at(
                    sha256_of(self.spec_precomputed().spec_aligned()),
                    k - 8,
                ),
            r@[16] as int == self.spec_precomputed().spec_start_offset(),
            r@[17] as int == self.spec_precomputed().spec_end_offset(),
    {
        self.precomputed.public_inputs()
    }

    /// Composes the full inclusion-proof plan for this witness: both SHA-256
    /// preimages in padded word form, the digest words the gadget computes
    /// from the witness bytes, the expected digest words recorded at
    /// precomputation, and the boundary, interior and binding assertions over
    /// them, in constraint-composition order.
    ///
    /// Synthesis always succeeds: the padded preimages are whole 512-bit
    /// blocks by construction.
    pub fn synthesize(&self) -> (r: Result<InclusionPlan, SynthesisError>)
        ensures
            r.is_ok(),
            ({
                let w = self.spec_precomputed();
                match r {
                    Ok(plan) => plan_shape(
                        plan,
                        words_of(sha256_pad(w.spec_jwt())),
                        words_of(sha256_pad(w.spec_aligned())),
                        digest_words(w.spec_jwt()),
                        digest_words(w.spec_aligned()),
                        digest_words(w.spec_jwt()),
                        digest_words(w.spec_aligned()),
                        w.spec_location_start(),
                        w.spec_location_end(),
                        w.spec_start_offset(),
                        w.spec_end_offset(),
                    ),
                    Err(_) => false,
                }
            }),
            ({
                let w = self.spec_precomputed();
                match r {
                    Ok(plan) => boundary_offsets_supported(w) ==> plan.satisfied(),
                    Err(_) => false,
                }
            }),
    {
        proof {
            use_type_invariant(&self.precomputed);
        }
        let (segment_location_start, segment_location_end) = self.precomputed.segment_location();
        let (segment_start_offset, segment_end_offset) = self.precomputed.segment_offset();

        let padded_message_jwt = pad_sha256_bytes(self.precomputed.jwt_bytes().as_slice());
        let padded_message_credential = pad_sha256_bytes(
            self.precomputed.aligned_credential_bytes().as_slice(),
        );
        let preimage_jwt = bytes_to_u32_array(padded_message_jwt.as_slice());
        let preimage_credential = bytes_to_u32_array(padded_message_credential.as_slice());

        let (digest_jwt_bytes, digest_credential_bytes) = self.precomputed.digests();
        let expected_digest_jwt = bytes_to_u32_array(digest_jwt_bytes.as_slice());
        let expected_digest_credential = bytes_to_u32_array(digest_credential_bytes.as_slice());

        let computed_jwt = sha256_hash_bytes_digests(self.precomputed.jwt_bytes().as_slice());
        let computed_credential = sha256_hash_bytes_digests(
            self.precomputed.aligned_credential_bytes().as_slice(),
        );
        let computed_digest_jwt = bytes_to_u32_array(computed_jwt.as_slice());
        let computed_digest_credential = bytes_to_u32_array(computed_credential.as_slice());

        proof {
            let w = self.spec_precomputed();
            let p = w.spec_byte_position();
            let n = w.spec_credential().len() as int;
            let jl = w.spec_jwt().len() as int;
            let al = w.spec_aligned().len() as int;
            lemma_pad_word_bounds(jl);
            lemma_pad_word_bounds(al);
            vstd::arithmetic::div_mod::lemma_div_is_ordered(p, p + n, 4);
            vstd::arithmetic::div_mod::lemma_div_is_ordered(p + n, jl, 4);
            assert(al == w.spec_start_offset() + n + w.spec_end_offset());
            assert(4 * (w.spec_location_end() - w.spec_location_start()) == n
                + w.spec_start_offset() - w.spec_end_offset()) by {
                vstd::arithmetic::div_mod::lemma_fundamental_div_mod(p, 4);
                vstd::arithmetic::div_mod::lemma_fundamental_div_mod(p + n, 4);
            }
            assert(w.spec_location_end() - w.spec_location_start() <= al / 4) by {
                let diff = w.spec_location_end() - w.spec_location_start();
                assert(4 * diff <= al);
                vstd::arithmetic::div_mod::lemma_div_is_ordered(4 * diff, al, 4);
                vstd::arithmetic::div_mod::lemma_div_by_multiple(diff, 4);
            }
        }

        let plan = compose_inclusion_proof(
            &preimage_jwt,
            &preimage_credential,
            &computed_digest_jwt,
            &computed_digest_credential,
            &expected_digest_jwt,
            &expected_digest_credential,
            segment_location_start,
            segment_location_end,
            segment_start_offset,
            segment_end_offset,
        );

        proof {
            let w = self.spec_precomputed();
            assert(words_int(preimage_jwt@) =~= words_of(sha256_pad(w.spec_jwt())));
            assert(words_int(preimage_credential@) =~= words_of(sha256_pad(w.spec_aligned())));
            assert(words_int(expected_digest_jwt@) =~= digest_words(w.spec_jwt()));
            assert(words_int(expected_digest_credential@) =~= digest_words(w.spec_aligned()));
            assert(words_int(computed_digest_jwt@) =~= digest_words(w.spec_jwt()));
            assert(words_int(computed_digest_credential@) =~= digest_words(w.spec_aligned()));
            if plan.is_ok() && boundary_offsets_supported(w) {
                lemma_genuine_plan_satisfied(w, plan->Ok_0);
            }
        }

        plan
    }
}

/// A word is the weighted sum of its four bytes.
proof fn lemma_word_at_bytes(s: Seq<u8>, k: int)
    requires
        0 <= k,
        4 * k + 4 <= s.len(),
    ensures
        word_at(s, k) == s[4 * k] * 0x1000000 + s[4 * k + 1] * 0x10000 + s[4 * k + 2] * 0x100 + s[4
            * k + 3],
{
    let sub = s.subrange(4 * k, 4 * k + 4);
    assert(sub[0] == s[4 * k]);
    assert(sub[1] == s[4 * k + 1]);
    assert(sub[2] == s[4 * k + 2]);
    assert(sub[3] == s[4 * k + 3]);
}

/// SHA-256 padding leaves the message bytes in place.
proof fn lemma_pad_preserves_prefix(x: Seq<u8>, i: int)
    requires
        0 <= i < x.len(),
    ensures
        i < sha256_pad(x).len(),
        sha256_pad(x)[i] == x[i],
{
}

/// Within the credential's real-byte range, the padded aligned credential and
/// the padded JWT carry the same byte: position `idx` of the aligned
/// credential sits at position `4 * location_start + idx` of the JWT.
proof fn lemma_overlap_byte(w: PreComputed, idx: int)
    requires
        w.inv(),
        w.spec_start_offset() <= idx < w.spec_start_offset() + w.spec_credential().len(),
    ensures
        0 <= idx < w.spec_aligned().len(),
        0 <= 4 * w.spec_location_start() + idx < w.spec_jwt().len(),
        sha256_pad(w.spec_aligned())[idx] == sha256_pad(w.spec_jwt())[4 * w.spec_location_start()
            + idx],
{
    let s = w.spec_start_offset();
    let n = w.spec_credential().len() as int;
    let p = w.spec_byte_position();
    let ll = w.spec_location_start();
    assert(p == 4 * ll + s);
    assert(w.spec_aligned()[idx] == w.spec_credential()[idx - s]);
    assert(w.spec_jwt().subrange(p, p + n) == w.spec_credential());
    assert(w.spec_jwt().subrange(p, p + n)[idx - s] == w.spec_jwt()[p + idx - s]);
    assert(w.spec_jwt()[4 * ll + idx] == w.spec_credential()[idx - s]);
    lemma_pad_preserves_prefix(w.spec_aligned(), idx);
    lemma_pad_preserves_prefix(w.spec_jwt(), 4 * ll + idx);
}

/// Within the zero-padding ranges of the aligned credential, the padded
/// sequence carries a zero byte.
proof fn lemma_aligned_zero_byte(w: PreComputed, idx: int)
    requires
        w.inv(),
        0 <= idx < w.spec_aligned().len(),
        idx < w.spec_start_offset() || idx >= w.spec_start_offset()
            + w.spec_credential().len(),
    ensures
        sha256_pad(w.spec_aligned())[idx] == 0,
{
    lemma_pad_preserves_prefix(w.spec_aligned(), idx);
}

/// The boundary-masking widths cover the genuine witness: the start mask
/// checks the low `start_offset * 8` bits, which the honest difference only
/// clears when at most two padding bytes lead the credential; the end mask
/// checks the high `32 - end_offset * 8` bits, which the honest difference
/// only clears when at least two real bytes reach into the end boundary word;
/// and the overlap spans more than one JWT word, so each boundary word is
/// compared against the credential word that genuinely aligns with it.
pub open spec fn boundary_offsets_supported(w: PreComputed) -> bool {
    let multi = w.spec_location_end() > w.spec_location_start();
    &&& (w.spec_start_offset() == 0 || (w.spec_start_offset() <= 2 && multi))
    &&& (w.spec_end_offset() == 0 || (w.spec_end_offset() >= 2 && multi))
}

/// Containment soundness of the composed plan: a witness whose credential
/// genuinely occurs in the JWT at the recorded position, with matching
/// computed and expected digests, satisfies every assertion of its plan,
/// provided the boundary mask widths cover its offsets.
#[verifier::rlimit(60)]
pub proof fn lemma_genuine_plan_satisfied(w: PreComputed, plan: InclusionPlan)
    requires
        w.inv(),
        boundary_offsets_supported(w),
        plan_shape(
            plan,
            words_of(sha256_pad(w.spec_jwt())),
            words_of(sha256_pad(w.spec_aligned())),
            digest_words(w.spec_jwt()),
            digest_words(w.spec_aligned()),
            digest_words(w.spec_jwt()),
            digest_words(w.spec_aligned()),
            w.spec_location_start(),
            w.spec_location_end(),
            w.spec_start_offset(),
            w.spec_end_offset(),
        ),
    ensures
        plan.satisfied(),
{
    let s = w.spec_start_offset();
    let e = w.spec_end_offset();
    let n = w.spec_credential().len() as int;
    let p = w.spec_byte_position();
    let ll = w.spec_location_start();
    let mm = w.spec_location_end();
    let jl = w.spec_jwt().len() as int;
    let al = w.spec_aligned().len() as int;
    let jp = sha256_pad(w.spec_jwt());
    let cp = sha256_pad(w.spec_aligned());
    let jwt_words = words_of(jp);
    let credential_words = words_of(cp);

    lemma_pow256_small();
    lemma_pad_word_bounds(jl);
    lemma_pad_word_bounds(al);
    assert(jp.len() == 64 * ((jl + 72) / 64));
    assert(cp.len() == 64 * ((al + 72) / 64));
    assert(al == s + n + e);
    assert(p == 4 * ll + s);
    assert(p + n == 4 * mm + e) by {
        vstd::arithmetic::div_mod::lemma_fundamental_div_mod(p + n, 4);
    }
    assert(4 * (mm - ll) == n + s - e);
    vstd::arithmetic::div_mod::lemma_div_is_ordered(p + n, jl, 4);
    assert(mm <= jl / 4);
    assert(jwt_words.len() == jp.len() / 4);
    assert(credential_words.len() == cp.len() / 4);
    assert(mm < jwt_words.len());
    assert(mm - ll <= al / 4) by {
        assert(4 * (mm - ll) <= al);
        vstd::arithmetic::div_mod::lemma_div_is_ordered(4 * (mm - ll), al, 4);
        vstd::arithmetic::div_mod::lemma_div_by_multiple(mm - ll, 4);
    }
    assert(mm - ll < credential_words.len());

    // Digest bindings: computed and expected words are drawn from the same
    // digest sequences.
    assert forall|k: int| 0 <= k < plan.digest_checks_jwt@.len() implies (
    #[trigger] plan.digest_checks_jwt@[k]).computed == plan.digest_checks_jwt@[k].expected by {
        assert(plan.digest_checks_jwt@[k].computed as int == digest_words(w.spec_jwt())[k]);
        assert(plan.digest_checks_jwt@[k].expected as int == digest_words(w.spec_jwt())[k]);
    }
    assert forall|k: int| 0 <= k < plan.digest_checks_credential@.len() implies (
    #[trigger] plan.digest_checks_credential@[k]).computed
        == plan.digest_checks_credential@[k].expected by {
        assert(plan.digest_checks_credential@[k].computed as int == digest_words(
            w.spec_aligned(),
        )[k]);
        assert(plan.digest_checks_credential@[k].expected as int == digest_words(
            w.spec_aligned(),
        )[k]);
    }

    // Interior equalities: every interior word lies wholly inside the
    // credential's real-byte range, where the two padded sequences coincide.
    assert forall|k: int| 0 <= k < plan.interior_checks@.len() implies (
    #[trigger] plan.interior_checks@[k]).jwt_word == plan.interior_checks@[k].credential_word by {
        let t = k + 1;
        assert(1 <= t < mm - ll);
        assert(4 * t + 4 <= 4 * (mm - ll));
        assert(4 * (ll + t) + 4 <= 4 * mm);
        assert(4 * mm <= p + n);
        assert(4 * t + 4 <= jp.len() - 4 * ll) by {
            assert(4 * (ll + t) + 4 <= jl);
        }
        lemma_word_at_bytes(jp, ll + t);
        lemma_word_at_bytes(cp, t);
        lemma_overlap_byte(w, 4 * t);
        lemma_overlap_byte(w, 4 * t + 1);
        lemma_overlap_byte(w, 4 * t + 2);
        lemma_overlap_byte(w, 4 * t + 3);
        assert(4 * (ll + t) == 4 * ll + 4 * t);
        assert(jp[4 * (ll + t)] == cp[4 * t]);
        assert(jp[4 * (ll + t) + 1] == cp[4 * t + 1]);
        assert(jp[4 * (ll + t) + 2] == cp[4 * t + 2]);
        assert(jp[4 * (ll + t) + 3] == cp[4 * t + 3]);
        assert(word_at(jp, ll + t) == word_at(cp, t));
        assert(plan.interior_checks@[k].jwt_word as int == jwt_words[ll + 1 + k]);
        assert(jwt_words[ll + t] == word_at(jp, ll + t));
        assert(credential_words[t] == word_at(cp, t));
    }

    // Start boundary: the low-order real bytes of the two boundary words
    // coincide, so their difference is a sum of the leading padding bytes'
    // weights, which the low-bit mask clears.
    if s != 0 {
        let c = plan.start_check->Some_0;
        assert(mm > ll);
        assert(4 <= s + n);
        assert(4 * ll + 4 <= jl) by {
            assert(4 * ll + s + n == p + n);
        }
        lemma_word_at_bytes(jp, ll);
        lemma_word_at_bytes(cp, 0);
        assert(c.jwt_word as int == word_at(jp, ll));
        assert(c.credential_word as int == word_at(cp, 0));
        assert forall|j: int| s <= j < 4 implies cp[j] == jp[4 * ll + j] by {
            lemma_overlap_byte(w, j);
        }
        assert forall|j: int| 0 <= j < s implies cp[j] == 0 by {
            lemma_aligned_zero_byte(w, j);
        }
        if s == 1 {
            let b0 = jp[4 * ll] as int;
            assert(word_at(jp, ll) - word_at(cp, 0) == b0 * 0x1000000);
            assert(b0 * 0x1000000 == (b0 * 0x10000) * 256) by (nonlinear_arith);
            vstd::arithmetic::div_mod::lemma_mod_multiples_basic(b0 * 0x10000, 256);
            assert((c.jwt_word - c.credential_word) % (pow256(1) as int) == 0);
            assert(c.jwt_word >= c.credential_word);
        } else {
            assert(s == 2);
            let b0 = jp[4 * ll] as int;
            let b1 = jp[4 * ll + 1] as int;
            assert(word_at(jp, ll) - word_at(cp, 0) == b0 * 0x1000000 + b1 * 0x10000);
            assert(b0 * 0x1000000 + b1 * 0x10000 == (b0 * 256 + b1) * 65536) by (nonlinear_arith);
            vstd::arithmetic::div_mod::lemma_mod_multiples_basic(b0 * 256 + b1, 65536);
            assert((c.jwt_word - c.credential_word) % (pow256(2) as int) == 0);
            assert(c.jwt_word >= c.credential_word) by {
                assert(b0 * 0x1000000 >= 0) by (nonlinear_arith)
                    requires
                        b0 >= 0,
                ;
                assert(b1 * 0x10000 >= 0) by (nonlinear_arith)
                    requires
                        b1 >= 0,
                ;
            }
        }
        assert(start_boundary_ok(c, s));
    }

    // End boundary: the high-order real bytes of the two boundary words
    // coincide and the credential word's remaining bytes are zero padding,
    // so the difference fits below the high-bit mask.
    if e != 0 {
        let c = plan.end_check->Some_0;
        assert(mm > ll);
        assert(e >= 2);
        let t = mm - ll;
        assert(t >= 1);
        assert(4 * t + 4 <= al + 4 - 2 * e + 4);
        assert(4 * t + 4 <= cp.len());
        assert(4 * mm + 4 <= jp.len()) by {
            assert(4 * mm + 4 <= p + n + 4);
            assert(jp.len() >= jl + 9) by {
                assert(jp.len() == 64 * ((jl + 72) / 64));
                vstd::arithmetic::div_mod::lemma_fundamental_div_mod(jl + 72, 64);
            }
        }
        lemma_word_at_bytes(jp, mm);
        lemma_word_at_bytes(cp, t);
        assert(c.jwt_word as int == word_at(jp, mm));
        assert(c.credential_word as int == word_at(cp, t));
        assert forall|j: int| 0 <= j < e implies cp[4 * t + j] == jp[#[trigger] (4 * mm + j)] by {
            assert(4 * t + j < s + n);
            assert(s <= 4 * t + j);
            lemma_overlap_byte(w, 4 * t + j);
            assert(4 * ll + 4 * t + j == 4 * mm + j);
        }
        assert forall|j: int| e <= j < 4 implies cp[#[trigger] (4 * t + j)] == 0 by {
            assert(4 * t + j < al);
            assert(4 * t + j >= s + n);
            lemma_aligned_zero_byte(w, 4 * t + j);
        }
        let b2 = jp[4 * mm + 2] as int;
        let b3 = jp[4 * mm + 3] as int;
        if e == 2 {
            assert(word_at(jp, mm) - word_at(cp, t) == b2 * 0x100 + b3);
            assert(b2 * 0x100 + b3 < 65536);
            assert(b2 * 0x100 + b3 >= 0);
            assert(c.jwt_word - c.credential_word < pow256(2) as int);
            assert(c.jwt_word >= c.credential_word);
        } else {
            assert(e == 3);
            assert(word_at(jp, mm) - word_at(cp, t) == b3);
            assert(c.jwt_word - c.credential_word < pow256(3) as int);
            assert(c.jwt_word >= c.credential_word);
        }
        assert(end_boundary_ok(c, e));
    }
}

/// The start mask is too wide for three leading padding bytes: it checks the
/// low 24 bits of the boundary difference, but with start offset 3 only the
/// low 8 bits of the genuine difference vanish, so whenever either document
/// byte under the mask is nonzero even the genuine witness is rejected.
#[verifier::rlimit(30)]
pub proof fn lemma_start_offset_three_rejected(
    w: PreComputed,
    plan: InclusionPlan,
    computed_jwt: Seq<int>,
    computed_credential: Seq<int>,
    expected_jwt: Seq<int>,
    expected_credential: Seq<int>,
)
    requires
        w.inv(),
        w.spec_start_offset() == 3,
        w.spec_location_end() > w.spec_location_start(),
        w.spec_jwt()[4 * w.spec_location_start() + 1] != 0 || w.spec_jwt()[4
            * w.spec_location_start() + 2] != 0,
        plan_shape(
            plan,
            words_of(sha256_pad(w.spec_jwt())),
            words_of(sha256_pad(w.spec_aligned())),
            computed_jwt,
            computed_credential,
            expected_jwt,
            expected_credential,
            w.spec_location_start(),
            w.spec_location_end(),
            w.spec_start_offset(),
            w.spec_end_offset(),
        ),
    ensures
        !plan.satisfied(),
{
    let s = w.spec_start_offset();
    let n = w.spec_credential().len() as int;
    let p = w.spec_byte_position();
    let ll = w.spec_location_start();
    let mm = w.spec_location_end();
    let jl = w.spec_jwt().len() as int;
    let al = w.spec_aligned().len() as int;
    let jp = sha256_pad(w.spec_jwt());
    let cp = sha256_pad(w.spec_aligned());

    lemma_pow256_small();
    lemma_pad_word_bounds(jl);
    lemma_pad_word_bounds(al);
    assert(p == 4 * ll + s);
    assert(p + n == 4 * mm + w.spec_end_offset()) by {
        vstd::arithmetic::div_mod::lemma_fundamental_div_mod(p + n, 4);
    }
    assert(4 <= s + n);
    assert(4 * ll + 4 <= jl);
    vstd::arithmetic::div_mod::lemma_div_is_ordered(p + n, jl, 4);
    assert(mm <= jl / 4);
    assert(ll < words_of(jp).len());

    let c = plan.start_check->Some_0;
    lemma_word_at_bytes(jp, ll);
    lemma_word_at_bytes(cp, 0);
    assert(c.jwt_word as int == words_of(jp)[ll]);
    assert(c.credential_word as int == words_of(cp)[0]);
    assert(cp[3] == jp[4 * ll + 3]) by {
        lemma_overlap_byte(w, 3);
    }
    assert(cp[0] == 0 && cp[1] == 0 && cp[2] == 0) by {
        lemma_aligned_zero_byte(w, 0);
        lemma_aligned_zero_byte(w, 1);
        lemma_aligned_zero_byte(w, 2);
    }
    let b0 = jp[4 * ll] as int;
    let b1 = jp[4 * ll + 1] as int;
    let b2 = jp[4 * ll + 2] as int;
    assert(c.jwt_word - c.credential_word == b0 * 0x1000000 + b1 * 0x10000 + b2 * 0x100);
    let low = b1 * 0x10000 + b2 * 0x100;
    assert(b1 != 0 || b2 != 0) by {
        lemma_pad_preserves_prefix(w.spec_jwt(), 4 * ll + 1);
        lemma_pad_preserves_prefix(w.spec_jwt(), 4 * ll + 2);
    }
    assert(0 < low < 0x1000000);
    assert((b0 * 0x1000000 + low) % 0x1000000 == low % 0x1000000) by {
        vstd::arithmetic::div_mod::lemma_mod_multiples_vanish(b0, low, 0x1000000);
        assert(0x1000000 * b0 == b0 * 0x1000000) by (nonlinear_arith);
    }
    vstd::arithmetic::div_mod::lemma_small_mod(low as nat, 0x1000000);
    assert((c.jwt_word - c.credential_word) % (pow256(3) as int) != 0);
    assert(!start_boundary_ok(c, 3));
}

/// Tamper rejection at the digest bindings: a plan in which any computed
/// digest word differs from its expected word is unsatisfiable, whatever the
/// rest of the plan holds.
pub proof fn lemma_digest_mismatch_unsatisfiable(plan: InclusionPlan)
    requires
        (exists|k: int|
            0 <= k < plan.digest_checks_jwt@.len() && (
            #[trigger] plan.digest_checks_jwt@[k]).computed
                != plan.digest_checks_jwt@[k].expected) || (exists|k: int|
            0 <= k < plan.digest_checks_credential@.len() && (
            #[trigger] plan.digest_checks_credential@[k]).computed
                != plan.digest_checks_credential@[k].expected),
    ensures
        !plan.satisfied(),
{
}

/// Tamper rejection for a composed plan: whenever the digest words the
/// gadget computed disagree anywhere with the expected digest words, the
/// resulting plan is unsatisfiable.
pub proof fn lemma_tampered_digest_rejected(
    plan: InclusionPlan,
    jwt_words: Seq<int>,
    credential_words: Seq<int>,
    computed_jwt: Seq<int>,
    computed_credential: Seq<int>,
    expected_jwt: Seq<int>,
    expected_credential: Seq<int>,
    location_start: int,
    location_end: int,
    start_offset: int,
    end_offset: int,
)
    requires
        plan_shape(
            plan,
            jwt_words,
            credential_words,
            computed_jwt,
            computed_credential,
            expected_jwt,
            expected_credential,
            location_start,
            location_end,
            start_offset,
            end_offset,
        ),
        exists|k: int|
            0 <= k < 8 && ((#[trigger] computed_jwt[k]) != expected_jwt[k] || computed_credential[k]
                != expected_credential[k]),
    ensures
        !plan.satisfied(),
{
    if plan.satisfied() {
        assert forall|k: int|
            0 <= k < 8 implies (#[trigger] computed_jwt[k]) == expected_jwt[k]
                && computed_credential[k] == expected_credential[k] by {
            assert(plan.digest_checks_jwt@[k].computed == plan.digest_checks_jwt@[k].expected);
            assert(plan.digest_checks_credential@[k].computed
                == plan.digest_checks_credential@[k].expected);
        }
        assert(false);
    }
}

/// The difference value decomposed into exactly 32 bits, least significant
/// first.
fn to_bits_le_32(value: u32) -> (r: Vec<u8>)
    ensures
        r@.len() == 32,
        forall|j: int|
            0 <= j < 32 ==> (#[trigger] r@[j]) as int == (value as int / (
            vstd::arithmetic::power2::pow2(j as nat) as int)) % 2,
{
    let mut bits: Vec<u8> = Vec::new();
    let mut cur: u32 = value;
    let mut i: usize = 0;
    proof {
        assert(vstd::arithmetic::power2::pow2(0) == 1) by {
            vstd::arithmetic::power2::lemma2_to64();
        }
    }
    while i < 32
        invariant
            i <= 32,
            i == bits@.len(),
            cur as int == value as int / (vstd::arithmetic::power2::pow2(i as nat) as int),
            forall|j: int|
                0 <= j < i ==> (#[trigger] bits@[j]) as int == (value as int / (
                vstd::arithmetic::power2::pow2(j as nat) as int)) % 2,
        decreases 32 - i,
    {
        proof {
            vstd::arithmetic::power2::lemma_pow2_pos(i as nat);
        }
        bits.push((cur % 2) as u8);
        proof {
            vstd::arithmetic::power2::lemma_pow2_pos(i as nat);
            vstd::arithmetic::power2::lemma_pow2_adds(i as nat, 1);
            assert(vstd::arithmetic::power2::pow2(1) == 2) by {
                vstd::arithmetic::power2::lemma2_to64();
            }
            vstd::arithmetic::div_mod::lemma_div_denominator(
                value as int,
                vstd::arithmetic::power2::pow2(i as nat) as int,
                2,
            );
        }
        cur = cur / 2;
        i = i + 1;
    }
    bits
}

} // verus!
