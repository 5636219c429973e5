use halo2_jwt::digest::{sha256_hash_bytes_digests, u32_array_to_blockwords};
use halo2_jwt::util::{
    bytes_to_u32, bytes_to_u32_array, find_subsequence_u8, pad_bytes_front_n_end, pad_sha256_bytes,
    usize_to_bytes,
};

#[test]
fn pad_bytes_front_n_end_exact() {
    let r = pad_bytes_front_n_end(&[7, 8, 9], 2, 3);
    assert_eq!(r, vec![0, 0, 7, 8, 9, 0, 0, 0]);
    let r = pad_bytes_front_n_end(&[], 1, 1);
    assert_eq!(r, vec![0, 0]);
    let r = pad_bytes_front_n_end(&[1], 0, 0);
    assert_eq!(r, vec![1]);
}

#[test]
fn usize_to_bytes_big_endian() {
    assert_eq!(usize_to_bytes(0), [0u8; 8]);
    assert_eq!(usize_to_bytes(24), [0, 0, 0, 0, 0, 0, 0, 24]);
    assert_eq!(
        usize_to_bytes(0x0102030405060708),
        [1, 2, 3, 4, 5, 6, 7, 8]
    );
    assert_eq!(usize_to_bytes(usize::MAX), [0xFF; 8]);
}

#[test]
fn pad_sha256_bytes_one_block() {
    let r = pad_sha256_bytes(b"abc");
    assert_eq!(r.len(), 64);
    assert_eq!(&r[0..3], b"abc");
    assert_eq!(r[3], 0x80);
    for i in 4..56 {
        assert_eq!(r[i], 0);
    }
    // 3 bytes = 24 bits, big-endian in the last eight bytes.
    assert_eq!(&r[56..64], &[0, 0, 0, 0, 0, 0, 0, 24]);
}

#[test]
fn pad_sha256_bytes_block_boundary() {
    // 56 bytes leave no room for the length in the first block.
    let msg = [0x61u8; 56];
    let r = pad_sha256_bytes(&msg);
    assert_eq!(r.len(), 128);
    assert_eq!(r[56], 0x80);
    assert_eq!(&r[120..128], &[0, 0, 0, 0, 0, 0, 0x01, 0xC0]);

    // 55 bytes still fit in one block.
    let r = pad_sha256_bytes(&[0x61u8; 55]);
    assert_eq!(r.len(), 64);
}

#[test]
fn bytes_to_u32_left_justified() {
    assert_eq!(bytes_to_u32(&[]), 0);
    assert_eq!(bytes_to_u32(&[0xAB]), 0xAB000000);
    assert_eq!(bytes_to_u32(&[0x01, 0x02]), 0x01020000);
    assert_eq!(bytes_to_u32(&[0x01, 0x02, 0x03]), 0x01020300);
    assert_eq!(bytes_to_u32(&[0x01, 0x02, 0x03, 0x04]), 0x01020304);
}

#[test]
fn bytes_to_u32_array_drops_partial_tail() {
    let r = bytes_to_u32_array(&[1, 2, 3, 4, 5, 6, 7, 8, 9]);
    assert_eq!(r, vec![0x01020304, 0x05060708]);
    let r = bytes_to_u32_array(&[1, 2, 3]);
    assert_eq!(r, Vec::<u32>::new());
}

#[test]
fn find_subsequence_u8_first_occurrence() {
    assert_eq!(find_subsequence_u8(b"hello world", b"world"), Some(6));
    assert_eq!(find_subsequence_u8(b"aaaa", b"aa"), Some(0));
    assert_eq!(find_subsequence_u8(b"abc", b"abc"), Some(0));
    assert_eq!(find_subsequence_u8(b"abc", b"abcd"), None);
    assert_eq!(find_subsequence_u8(b"abc", b"x"), None);
    assert_eq!(find_subsequence_u8(b"", b"x"), None);
}

#[test]
fn blockwords_wrap_words() {
    let words: Vec<u32> = (0..8).collect();
    let r = u32_array_to_blockwords(&words);
    assert_eq!(r.len(), 8);
    for k in 0..8 {
        assert_eq!(r[k].0, words[k]);
    }
}

#[test]
fn sha256_wrapper_hashes() {
    // SHA-256 of the empty input.
    let expected_empty: [u8; 32] = [
        0xe3, 0xb0, 0xc4, 0x42, 0x98, 0xfc, 0x1c, 0x14, 0x9a, 0xfb, 0xf4, 0xc8, 0x99, 0x6f, 0xb9,
        0x24, 0x27, 0xae, 0x41, 0xe4, 0x64, 0x9b, 0x93, 0x4c, 0xa4, 0x95, 0x99, 0x1b, 0x78, 0x52,
        0xb8, 0x55,
    ];
    assert_eq!(sha256_hash_bytes_digests(b""), expected_empty);
    let expected_abc: [u8; 32] = [
        0xba, 0x78, 0x16, 0xbf, 0x8f, 0x01, 0xcf, 0xea, 0x41, 0x41, 0x40, 0xde, 0x5d, 0xae, 0x22,
        0x23, 0xb0, 0x03, 0x61, 0xa3, 0x96, 0x17, 0x7a, 0x9c, 0xb4, 0x10, 0xff, 0x61, 0xf2, 0x00,
        0x15, 0xad,
    ];
    assert_eq!(sha256_hash_bytes_digests(b"abc"), expected_abc);
}
