use halo2_jwt::circuit::{compose_inclusion_proof, JwtCircuit, SynthesisError};
use halo2_jwt::precompute::PreComputed;
use halo2_jwt::util::{bytes_to_u32_array, pad_sha256_bytes};
use halo2_jwt::digest::sha256_hash_bytes_digests;

fn digest_words(msg: &[u8]) -> Vec<u32> {
    bytes_to_u32_array(&sha256_hash_bytes_digests(msg))
}

#[test]
fn num_instance_is_18() {
    assert_eq!(JwtCircuit::num_instance(), vec![18]);
}

#[test]
fn instances_match_public_inputs() {
    let w = PreComputed::new_with_bytes(b"0123456789abcdef", b"456789ab").unwrap();
    let inputs = w.public_inputs();
    let circuit = JwtCircuit::new(w);
    assert_eq!(circuit.instances(), inputs);
}

#[test]
fn word_aligned_credential_satisfies() {
    // Both offsets are zero: no boundary blocks, only interior equality.
    let w = PreComputed::new_with_bytes(b"0123456789abcdef", b"456789ab").unwrap();
    let (start_offset, end_offset) = w.segment_offset();
    assert_eq!(start_offset, 0);
    assert_eq!(end_offset, 0);
    let plan = JwtCircuit::new(w).synthesize().unwrap();
    assert!(plan.start_check.is_none());
    assert!(plan.end_check.is_none());
    assert_eq!(plan.interior_checks.len(), 1);
    assert!(plan.is_satisfied());
}

#[test]
fn sub_word_offsets_satisfy() {
    // Start offset 2 and end offset 2, spanning three JWT words.
    let a = [
        0x01, 0x02, 0x03, 0x04, 0x05, 0x06, 0x07, 0x08, 0x9, 0x10, 0x11, 0x12, 0x13, 0x14, 0x15,
        0x16, 0x17, 0x18,
    ];
    let b = [0x03, 0x04, 0x05, 0x06, 0x07, 0x08, 0x09, 0x10];
    let w = PreComputed::new_with_bytes(&a, &b).unwrap();
    let (start_offset, end_offset) = w.segment_offset();
    assert_eq!(start_offset, 2);
    assert_eq!(end_offset, 2);
    let plan = JwtCircuit::new(w).synthesize().unwrap();
    assert!(plan.start_check.is_some());
    assert!(plan.end_check.is_some());
    assert_eq!(plan.interior_checks.len(), 1);
    assert!(plan.is_satisfied());
}

#[test]
fn whole_document_match() {
    // The whole document as credential, length a multiple of four.
    let w = PreComputed::new_with_bytes(b"abcd", b"abcd").unwrap();
    let (loc_start, loc_end) = w.segment_location();
    assert_eq!(loc_start, 0);
    assert_eq!(loc_end, 1);
    let plan = JwtCircuit::new(w).synthesize().unwrap();
    assert!(plan.start_check.is_none());
    assert!(plan.end_check.is_none());
    assert_eq!(plan.interior_checks.len(), 0);
    assert!(plan.is_satisfied());

    // Length not a multiple of four: the end offset reflects the padding.
    let w = PreComputed::new_with_bytes(b"abcdef", b"abcdef").unwrap();
    let (loc_start, loc_end) = w.segment_location();
    let (start_offset, end_offset) = w.segment_offset();
    assert_eq!(loc_start, 0);
    assert_eq!(loc_end, 1);
    assert_eq!(start_offset, 0);
    assert_eq!(end_offset, 2);
    let plan = JwtCircuit::new(w).synthesize().unwrap();
    assert!(plan.is_satisfied());
}

#[test]
fn boundary_blocks_skipped_exactly_when_offset_zero() {
    let jwt = b"0123456789abcdef";
    for start in 0..6 {
        for len in 2..9 {
            let credential = &jwt[start..start + len];
            let w = PreComputed::new_with_bytes(jwt, credential).unwrap();
            let (start_offset, end_offset) = w.segment_offset();
            let plan = JwtCircuit::new(w).synthesize().unwrap();
            assert_eq!(plan.start_check.is_some(), start_offset != 0);
            assert_eq!(plan.end_check.is_some(), end_offset != 0);
            assert_eq!(plan.start_offset, start_offset);
            assert_eq!(plan.end_offset, end_offset);
        }
    }
}

#[test]
fn scenario_offset_three() {
    // "XYZ" at byte position 3 of a nine-byte document.
    let w = PreComputed::new_with_bytes(b"abcXYZdef", b"XYZ").unwrap();
    let (loc_start, loc_end) = w.segment_location();
    let (start_offset, end_offset) = w.segment_offset();
    assert_eq!(loc_start * 4 + start_offset, 3);
    assert_eq!(loc_start, 0);
    assert_eq!(start_offset, 3);
    assert_eq!(loc_end, 1);
    assert_eq!(end_offset, 2);
    let plan = JwtCircuit::new(w).synthesize().unwrap();
    // The start mask checks the low 24 bits of the boundary difference, which
    // carry two real document bytes here, so even the genuine witness is
    // rejected at start offset 3.
    assert!(!plan.is_satisfied());
}

#[test]
fn tampered_jwt_breaks_satisfiability() {
    let jwt = b"0123456789abcdef".to_vec();
    let credential = b"456789ab";
    let w = PreComputed::new_with_bytes(&jwt, credential).unwrap();
    let (digest_jwt, digest_credential) = w.digests();
    let (loc_start, loc_end) = w.segment_location();
    let (start_offset, end_offset) = w.segment_offset();

    // Flip one byte of the document after precomputation, without
    // recomputing the expected digests.
    let mut tampered = jwt.clone();
    tampered[5] ^= 0x01;
    let aligned = w.aligned_credential_bytes().clone();

    let preimage_jwt = bytes_to_u32_array(&pad_sha256_bytes(&tampered));
    let preimage_credential = bytes_to_u32_array(&pad_sha256_bytes(&aligned));
    let computed_jwt = digest_words(&tampered);
    let computed_credential = digest_words(&aligned);
    let expected_jwt = bytes_to_u32_array(&digest_jwt);
    let expected_credential = bytes_to_u32_array(&digest_credential);
    assert_ne!(computed_jwt, expected_jwt);

    let plan = compose_inclusion_proof(
        &preimage_jwt,
        &preimage_credential,
        &computed_jwt,
        &computed_credential,
        &expected_jwt,
        &expected_credential,
        loc_start,
        loc_end,
        start_offset,
        end_offset,
    )
    .unwrap();
    assert!(!plan.is_satisfied());
}

#[test]
fn tampered_credential_breaks_satisfiability() {
    let jwt = b"0123456789abcdef";
    let credential = b"456789ab";
    let w = PreComputed::new_with_bytes(jwt, credential).unwrap();
    let (digest_jwt, digest_credential) = w.digests();
    let (loc_start, loc_end) = w.segment_location();
    let (start_offset, end_offset) = w.segment_offset();

    // Flip one byte of the aligned credential after precomputation.
    let mut tampered = w.aligned_credential_bytes().clone();
    tampered[2] ^= 0x80;

    let preimage_jwt = bytes_to_u32_array(&pad_sha256_bytes(jwt));
    let preimage_credential = bytes_to_u32_array(&pad_sha256_bytes(&tampered));
    let computed_jwt = digest_words(jwt);
    let computed_credential = digest_words(&tampered);
    let expected_jwt = bytes_to_u32_array(&digest_jwt);
    let expected_credential = bytes_to_u32_array(&digest_credential);
    assert_ne!(computed_credential, expected_credential);

    let plan = compose_inclusion_proof(
        &preimage_jwt,
        &preimage_credential,
        &computed_jwt,
        &computed_credential,
        &expected_jwt,
        &expected_credential,
        loc_start,
        loc_end,
        start_offset,
        end_offset,
    )
    .unwrap();
    assert!(!plan.is_satisfied());
}

#[test]
fn tampered_expected_digest_word_breaks_satisfiability() {
    let jwt = b"0123456789abcdef";
    let credential = b"456789ab";
    let w = PreComputed::new_with_bytes(jwt, credential).unwrap();
    let (digest_jwt, digest_credential) = w.digests();
    let (loc_start, loc_end) = w.segment_location();
    let (start_offset, end_offset) = w.segment_offset();
    let aligned = w.aligned_credential_bytes().clone();

    let preimage_jwt = bytes_to_u32_array(&pad_sha256_bytes(jwt));
    let preimage_credential = bytes_to_u32_array(&pad_sha256_bytes(&aligned));
    let computed_jwt = digest_words(jwt);
    let computed_credential = digest_words(&aligned);
    let mut expected_jwt = bytes_to_u32_array(&digest_jwt);
    let expected_credential = bytes_to_u32_array(&digest_credential);
    expected_jwt[7] ^= 1;

    let plan = compose_inclusion_proof(
        &preimage_jwt,
        &preimage_credential,
        &computed_jwt,
        &computed_credential,
        &expected_jwt,
        &expected_credential,
        loc_start,
        loc_end,
        start_offset,
        end_offset,
    )
    .unwrap();
    assert!(!plan.is_satisfied());
}

#[test]
fn malformed_preimage_length_is_rejected() {
    let short_jwt: Vec<u32> = vec![0; 8];
    let short_credential: Vec<u32> = vec![0; 8];
    let digest: Vec<u32> = vec![0; 8];
    let r = compose_inclusion_proof(
        &short_jwt,
        &short_credential,
        &digest,
        &digest,
        &digest,
        &digest,
        0,
        0,
        0,
        0,
    );
    assert_eq!(r.unwrap_err(), SynthesisError::MalformedPreimageLength);
}

#[test]
fn plan_public_inputs_match_witness() {
    let w = PreComputed::new_with_bytes(b"abcXYZdef", b"XYZ").unwrap();
    let inputs = w.public_inputs();
    let plan = JwtCircuit::new(w).synthesize().unwrap();
    assert_eq!(plan.public_inputs, inputs);
}
