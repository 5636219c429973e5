use halo2_jwt::precompute::{PreComputed, PrecomputeError};

#[test]
fn e2e_precompute_test() {
    let a = [
        0x01, 0x02, 0x03, 0x04, 0x05, 0x06, 0x07, 0x08, 0x9, 0x10, 0x11, 0x12, 0x13, 0x14, 0x15,
        0x16, 0x17, 0x18,
    ];
    let b = [0x03, 0x04, 0x05, 0x06, 0x07, 0x08, 0x09, 0x10];
    let precompute = PreComputed::new_with_bytes(&a, &b).unwrap();

    println!("{:?}", precompute.aligned_credential_bytes());
}

#[test]
fn containment_gives_position() {
    let jwt = b"abcdefghij";
    let credential = b"defg";
    let w = PreComputed::new_with_bytes(jwt, credential).unwrap();
    let (loc_start, loc_end) = w.segment_location();
    let (start_offset, end_offset) = w.segment_offset();
    assert_eq!(loc_start * 4 + start_offset, 3);
    assert_eq!(loc_end * 4 + end_offset, 7);
    assert_eq!(loc_start, 0);
    assert_eq!(start_offset, 3);
    assert_eq!(loc_end, 1);
    assert_eq!(end_offset, 3);
}

#[test]
fn first_match_wins() {
    let jwt = b"xxabxxabxx";
    let credential = b"ab";
    let w = PreComputed::new_with_bytes(jwt, credential).unwrap();
    let (loc_start, _) = w.segment_location();
    let (start_offset, _) = w.segment_offset();
    assert_eq!(loc_start * 4 + start_offset, 2);
}

#[test]
fn absent_credential_is_rejected() {
    let jwt = b"abcdefghij";
    let credential = b"xyz";
    let r = PreComputed::new_with_bytes(jwt, credential);
    assert_eq!(r.unwrap_err(), PrecomputeError::CredentialNotFound);
}

#[test]
fn str_entry_point_finds_credential() {
    let jwt = "{\"iss\":\"https://dev-9h47ajc9.us.au111th0.com/\",\"sub\":\"twitter|337834122\",\"aud\":\"123\",\"iat\":1639173028,\"exp\":1639209028,\"nonce\":\"44017a89\"}";
    let credential = "twitter|337834122";
    let w = PreComputed::new(jwt, credential).unwrap();
    let (loc_start, _) = w.segment_location();
    let (start_offset, _) = w.segment_offset();
    let expected_position = jwt.find(credential).unwrap();
    assert_eq!(loc_start * 4 + start_offset, expected_position);
}

#[test]
fn absent_credential_from_str_is_rejected() {
    let r = PreComputed::new("a json web token", "credential");
    assert!(r.is_err());
    assert_eq!(r.unwrap_err(), PrecomputeError::CredentialNotFound);
}

#[test]
fn digest_matches_sha256_test_vector() {
    // SHA-256 of "abc", the classic test vector.
    let expected: [u8; 32] = [
        0xba, 0x78, 0x16, 0xbf, 0x8f, 0x01, 0xcf, 0xea, 0x41, 0x41, 0x40, 0xde, 0x5d, 0xae, 0x22,
        0x23, 0xb0, 0x03, 0x61, 0xa3, 0x96, 0x17, 0x7a, 0x9c, 0xb4, 0x10, 0xff, 0x61, 0xf2, 0x00,
        0x15, 0xad,
    ];
    let w = PreComputed::new_with_bytes(b"abcdefgh", b"abcd").unwrap();
    let (digest_jwt, digest_credential) = w.digests();
    assert_eq!(
        digest_jwt,
        <[u8; 32]>::from(<sha2::Sha256 as sha2::Digest>::digest(b"abcdefgh"))
    );
    assert_eq!(
        digest_credential,
        <[u8; 32]>::from(<sha2::Sha256 as sha2::Digest>::digest(b"abcd"))
    );

    let whole = PreComputed::new_with_bytes(b"abc", b"abc").unwrap();
    let (digest_whole, _) = whole.digests();
    assert_eq!(digest_whole, expected);
}

#[test]
fn digest_covers_aligned_credential() {
    // Credential at byte position 3: three leading and two trailing zeros.
    let w = PreComputed::new_with_bytes(b"abcXYZdef", b"XYZ").unwrap();
    let aligned = w.aligned_credential_bytes().clone();
    assert_eq!(aligned, vec![0, 0, 0, b'X', b'Y', b'Z', 0, 0]);
    let (_, digest_credential) = w.digests();
    assert_eq!(
        digest_credential,
        <[u8; 32]>::from(<sha2::Sha256 as sha2::Digest>::digest(&aligned))
    );
}

#[test]
fn alignment_round_trip() {
    let jwt = b"the quick brown fox jumps over the lazy dog";
    let credential = b"brown fox";
    let w = PreComputed::new_with_bytes(jwt, credential).unwrap();
    let (start_offset, end_offset) = w.segment_offset();
    let aligned = w.aligned_credential_bytes();
    assert_eq!(aligned.len(), start_offset + credential.len() + end_offset);
    for i in 0..start_offset {
        assert_eq!(aligned[i], 0);
    }
    for i in (start_offset + credential.len())..aligned.len() {
        assert_eq!(aligned[i], 0);
    }
    let recovered: Vec<u8> =
        aligned[start_offset..start_offset + credential.len()].to_vec();
    assert_eq!(recovered, credential.to_vec());
}

#[test]
fn offsets_stay_below_four() {
    let jwt = b"0123456789abcdef";
    for start in 0..8 {
        for len in 1..8 {
            let credential = &jwt[start..start + len];
            let w = PreComputed::new_with_bytes(jwt, credential).unwrap();
            let (start_offset, end_offset) = w.segment_offset();
            assert!(start_offset < 4);
            assert!(end_offset < 4);
        }
    }
}

#[test]
fn blockword_projections_are_consistent() {
    let w = PreComputed::new_with_bytes(b"0123456789abcdef", b"456789ab").unwrap();
    let [preimage_jwt, preimage_credential] = w.preimage_as_blockwords();
    // One 64-byte block each: 16 words.
    assert_eq!(preimage_jwt.len(), 16);
    assert_eq!(preimage_credential.len(), 16);
    // "0123" big-endian.
    assert_eq!(preimage_jwt[0].0, 0x30313233);
    // Aligned credential is word-aligned here, so word 0 is "4567".
    assert_eq!(preimage_credential[0].0, 0x34353637);

    let [digest_jwt_words, digest_credential_words] = w.expected_digest_as_blockwords();
    assert_eq!(digest_jwt_words.len(), 8);
    assert_eq!(digest_credential_words.len(), 8);
    let (digest_jwt, _) = w.digests();
    let first_word = u32::from_be_bytes([
        digest_jwt[0],
        digest_jwt[1],
        digest_jwt[2],
        digest_jwt[3],
    ]);
    assert_eq!(digest_jwt_words[0].0, first_word);
}

#[test]
fn public_inputs_layout() {
    let w = PreComputed::new_with_bytes(b"abcXYZdef", b"XYZ").unwrap();
    let inputs = w.public_inputs();
    assert_eq!(inputs.len(), 18);
    let (digest_jwt, digest_credential) = w.digests();
    for k in 0..8 {
        let jwt_word = u32::from_be_bytes([
            digest_jwt[4 * k],
            digest_jwt[4 * k + 1],
            digest_jwt[4 * k + 2],
            digest_jwt[4 * k + 3],
        ]);
        let credential_word = u32::from_be_bytes([
            digest_credential[4 * k],
            digest_credential[4 * k + 1],
            digest_credential[4 * k + 2],
            digest_credential[4 * k + 3],
        ]);
        assert_eq!(inputs[k], jwt_word as u64);
        assert_eq!(inputs[8 + k], credential_word as u64);
    }
    assert_eq!(inputs[16], 3);
    assert_eq!(inputs[17], 2);
}
