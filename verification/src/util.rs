//! Byte and word manipulation helpers shared by witness precomputation and
//! circuit synthesis: substring search, zero padding, SHA-256 message padding
//! and big-endian byte/word conversion.

use vstd::prelude::*;
use vstd::slice::slice_subrange;

verus! {

/// `256 ^ k`.
pub open spec fn pow256(k: nat) -> nat
    decreases k,
{
    if k == 0 {
        1
    } else {
        256 * pow256((k - 1) as nat)
    }
}

/// The byte of `s` at index `i`, read as an integer; zero past the end.
pub open spec fn byte_at(s: Seq<u8>, i: int) -> int {
    if 0 <= i < s.len() {
        s[i] as int
    } else {
        0
    }
}

/// The value of at most four bytes read big-endian and left-justified into a
/// 32-bit word: a missing trailing byte contributes zero low-order bits.
pub open spec fn be_u32_of(s: Seq<u8>) -> int {
    byte_at(s, 0) * 0x1000000 + byte_at(s, 1) * 0x10000 + byte_at(s, 2) * 0x100 + byte_at(s, 3)
}

/// The 4-byte word of `s` at word index `k`, big-endian.
pub open spec fn word_at(s: Seq<u8>, k: int) -> int {
    be_u32_of(s.subrange(4 * k, 4 * k + 4))
}

/// All whole 4-byte words of `s`, big-endian; a trailing partial word is dropped.
pub open spec fn words_of(s: Seq<u8>) -> Seq<int> {
    Seq::new(s.len() / 4, |k: int| word_at(s, k))
}

/// The eight bytes of `n`, big-endian.
pub open spec fn be_u64_bytes(n: nat) -> Seq<u8> {
    Seq::new(8, |i: int| ((n / pow256((7 - i) as nat)) % 256) as u8)
}

/// The standard SHA-256 message padding of `origin`: a single `0x80` byte,
/// zero bytes up to eight short of a 64-byte block boundary, then the bit
/// length of `origin` as a 64-bit big-endian integer.
pub open spec fn sha256_pad(origin: Seq<u8>) -> Seq<u8> {
    let blocks = (origin.len() + 72) / 64;
    origin + seq![0x80u8] + zero_bytes((64 * blocks - origin.len() - 9) as nat)
        + be_u64_bytes(origin.len() * 8)
}

/// True when `needle` occurs in `haystack` starting at byte index `i`.
pub open spec fn matches_at(haystack: Seq<u8>, needle: Seq<u8>, i: int) -> bool {
    0 <= i
    && i + needle.len() <= haystack.len()
    && haystack.subrange(i, i + needle.len() as int) == needle
}

/// True when `needle` occurs somewhere in `haystack`.
pub open spec fn contains_subsequence(haystack: Seq<u8>, needle: Seq<u8>) -> bool {
    exists|i: int| matches_at(haystack, needle, i)
}

/// A sequence of `n` zero bytes.
pub open spec fn zero_bytes(n: nat) -> Seq<u8> {
    Seq::new(n, |i: int| 0u8)
}

/// Byte-exact search for the first occurrence of `needle` in `haystack`.
pub fn find_subsequence_u8(haystack: &[u8], needle: &[u8]) -> (r: Option<usize>)
    requires
        needle@.len() >= 1,
    ensures
        match r {
            Some(i) => matches_at(haystack@, needle@, i as int)
                && forall|j: int| 0 <= j < i ==> !matches_at(haystack@, needle@, j),
            None => !contains_subsequence(haystack@, needle@),
        },
{
    let hay_len = haystack.len();
    let needle_len = needle.len();
    if needle_len > hay_len {
        assert(forall|j: int| !matches_at(haystack@, needle@, j));
        return None;
    }
    let mut i: usize = 0;
    while i <= hay_len - needle_len
        invariant
            needle_len == needle@.len(),
            hay_len == haystack@.len(),
            needle_len <= hay_len,
            i <= hay_len - needle_len + 1,
            forall|j: int| 0 <= j < i ==> !matches_at(haystack@, needle@, j),
        decreases hay_len - needle_len - i + 1,
    {
        let mut k: usize = 0;
        let mut all_eq: bool = true;
        while k < needle_len
            invariant
                needle_len == needle@.len(),
                hay_len == haystack@.len(),
                i + needle_len <= hay_len,
                k <= needle_len,
                all_eq <==> haystack@.subrange(i as int, i + k as int)
                    =~= needle@.subrange(0, k as int),
            decreases needle_len - k,
        {
            let ghost prev = all_eq;
            if haystack[i + k] != needle[k] {
                all_eq = false;
            }
            proof {
                let h = haystack@.subrange(i as int, i + (k + 1) as int);
                let n = needle@.subrange(0, (k + 1) as int);
                if all_eq {
                    assert(h =~= n) by {
                        assert(forall|t: int| 0 <= t < k + 1 ==> h[t] == n[t]);
                    }
                } else {
                    if h =~= n {
                        if prev && haystack@[i + k as int] == needle@[k as int] {
                            assert(false);
                        } else if prev {
                            assert(h[k as int] == n[k as int]);
                            assert(false);
                        } else {
                            let hp = haystack@.subrange(i as int, i + k as int);
                            let np = needle@.subrange(0, k as int);
                            assert(forall|t: int| 0 <= t < k ==> hp[t] == h[t] && np[t] == n[t]);
                            assert(hp =~= np);
                            assert(false);
                        }
                    }
                }
            }
            k = k + 1;
        }
        if all_eq {
            proof {
                assert(haystack@.subrange(i as int, i + needle_len as int)
                    =~= needle@.subrange(0, needle_len as int));
                assert(needle@.subrange(0, needle_len as int) =~= needle@);
            }
            return Some(i);
        }
        proof {
            if matches_at(haystack@, needle@, i as int) {
                assert(haystack@.subrange(i as int, i + needle_len as int)
                    =~= needle@.subrange(0, needle_len as int));
            }
        }
        i = i + 1;
    }
    assert(forall|j: int| 0 <= j < i ==> !matches_at(haystack@, needle@, j));
    assert(forall|j: int| i <= j ==> !matches_at(haystack@, needle@, j));
    None
}

/// Prefixes `origin` with `front_pad` zero bytes and suffixes it with
/// `end_pad` zero bytes.
pub fn pad_bytes_front_n_end(origin: &[u8], front_pad: usize, end_pad: usize) -> (r: Vec<u8>)
    requires
        origin@.len() + front_pad + end_pad <= usize::MAX,
    ensures
        r@ == zero_bytes(front_pad as nat) + origin@ + zero_bytes(end_pad as nat),
        r@.len() == front_pad + origin@.len() + end_pad,
{
    let mut result: Vec<u8> = Vec::new();
    let mut i: usize = 0;
    while i < front_pad
        invariant
            i <= front_pad,
            result@ =~= zero_bytes(i as nat),
        decreases front_pad - i,
    {
        result.push(0u8);
        proof {
            assert(result@ =~= zero_bytes((i + 1) as nat));
        }
        i = i + 1;
    }
    let mut j: usize = 0;
    while j < origin.len()
        invariant
            j <= origin@.len(),
            result@ =~= zero_bytes(front_pad as nat) + origin@.subrange(0, j as int),
        decreases origin@.len() - j,
    {
        result.push(origin[j]);
        proof {
            assert(result@ =~= zero_bytes(front_pad as nat)
                + origin@.subrange(0, (j + 1) as int));
        }
        j = j + 1;
    }
    proof {
        assert(origin@.subrange(0, origin@.len() as int) =~= origin@);
    }
    let mut t: usize = 0;
    while t < end_pad
        invariant
            t <= end_pad,
            result@ =~= zero_bytes(front_pad as nat) + origin@ + zero_bytes(t as nat),
        decreases end_pad - t,
    {
        result.push(0u8);
        proof {
            assert(result@ =~= zero_bytes(front_pad as nat) + origin@
                + zero_bytes((t + 1) as nat));
        }
        t = t + 1;
    }
    result
}

/// The eight big-endian bytes of `size`.
pub fn usize_to_bytes(size: usize) -> (r: [u8; 8])
    ensures
        r@ == be_u64_bytes(size as nat),
{
    let mut result = [0u8; 8];
    let r0: usize = size;
    let r1: usize = r0 / 256;
    let r2: usize = r1 / 256;
    let r3: usize = r2 / 256;
    let r4: usize = r3 / 256;
    let r5: usize = r4 / 256;
    let r6: usize = r5 / 256;
    let r7: usize = r6 / 256;
    result[7] = (r0 % 256) as u8;
    result[6] = (r1 % 256) as u8;
    result[5] = (r2 % 256) as u8;
    result[4] = (r3 % 256) as u8;
    result[3] = (r4 % 256) as u8;
    result[2] = (r5 % 256) as u8;
    result[1] = (r6 % 256) as u8;
    result[0] = (r7 % 256) as u8;
    proof {
        lemma_pow256_div(size as nat);
        assert(result@ =~= be_u64_bytes(size as nat));
    }
    result
}

/// Repeated division by 256 walks the powers of 256.
proof fn lemma_pow256_div(n: nat)
    ensures
        forall|k: nat| #[trigger] pow256(k) > 0,
        n / pow256(0) == n,
        (n / pow256(0)) / 256 == n / pow256(1),
        (n / pow256(1)) / 256 == n / pow256(2),
        (n / pow256(2)) / 256 == n / pow256(3),
        (n / pow256(3)) / 256 == n / pow256(4),
        (n / pow256(4)) / 256 == n / pow256(5),
        (n / pow256(5)) / 256 == n / pow256(6),
        (n / pow256(6)) / 256 == n / pow256(7),
{
    assert forall|k: nat| #[trigger] pow256(k) > 0 by {
        lemma_pow256_pos(k);
    }
    assert(pow256(0) == 1);
    assert forall|k: nat| k < 7 implies (n / #[trigger] pow256(k)) / 256 == n / pow256(k + 1) by {
        lemma_pow256_pos(k);
        vstd::arithmetic::div_mod::lemma_div_denominator(n as int, pow256(k) as int, 256);
        assert(pow256(k) * 256 == pow256(k + 1)) by {
            lemma_pow256_pos(k);
            assert(pow256(k + 1) == 256 * pow256(k));
        }
    }
}

proof fn lemma_pow256_pos(k: nat)
    ensures
        pow256(k) > 0,
    decreases k,
{
    if k > 0 {
        lemma_pow256_pos((k - 1) as nat);
    }
}

/// Applies standard SHA-256 padding to `origin`: a `0x80` byte, zeroes up to
/// the last eight bytes of a 64-byte block, then the 64-bit big-endian bit
/// length.
pub fn pad_sha256_bytes(origin: &[u8]) -> (r: Vec<u8>)
    requires
        origin@.len() <= (usize::MAX - 72) / 8,
    ensures
        r@ == sha256_pad(origin@),
        r@.len() % 64 == 0,
        r@.len() == 64 * ((origin@.len() + 72) / 64),
{
    let len = origin.len();
    let plen = len + 1 + 8;
    let blocks = (plen + 63) / 64;
    proof {
        assert(plen <= 64 * blocks && 64 * blocks <= plen + 63) by (nonlinear_arith)
            requires
                blocks == (plen + 63) / 64,
                plen >= 9,
        ;
    }

    let mut result: Vec<u8> = Vec::new();
    let mut i: usize = 0;
    while i < len
        invariant
            i <= len,
            len == origin@.len(),
            result@ =~= origin@.subrange(0, i as int),
        decreases len - i,
    {
        result.push(origin[i]);
        proof {
            assert(result@ =~= origin@.subrange(0, (i + 1) as int));
        }
        i = i + 1;
    }
    proof {
        assert(origin@.subrange(0, len as int) =~= origin@);
    }

    result.push(0x80);

    let zeroes = 64 * blocks - plen;
    let mut z: usize = 0;
    while z < zeroes
        invariant
            z <= zeroes,
            result@ =~= origin@ + seq![0x80u8] + zero_bytes(z as nat),
        decreases zeroes - z,
    {
        result.push(0);
        proof {
            assert(result@ =~= origin@ + seq![0x80u8] + zero_bytes((z + 1) as nat));
        }
        z = z + 1;
    }

    let len_u8 = usize_to_bytes(len * 8);
    let mut b: usize = 0;
    while b < 8
        invariant
            b <= 8,
            len_u8@ == be_u64_bytes((len * 8) as nat),
            len == origin@.len(),
            zeroes == 64 * ((len + 72) / 64) - len - 9,
            result@ =~= origin@ + seq![0x80u8] + zero_bytes(zeroes as nat)
                + be_u64_bytes((len * 8) as nat).subrange(0, b as int),
        decreases 8 - b,
    {
        result.push(len_u8[b]);
        proof {
            assert(result@ =~= origin@ + seq![0x80u8] + zero_bytes(zeroes as nat)
                + be_u64_bytes((len * 8) as nat).subrange(0, (b + 1) as int));
        }
        b = b + 1;
    }
    proof {
        assert(be_u64_bytes((len * 8) as nat).subrange(0, 8) =~= be_u64_bytes((len * 8) as nat));
        assert(result@ =~= sha256_pad(origin@));
        assert(result@.len() == 64 * ((origin@.len() + 72) / 64));
        assert(result@.len() % 64 == 0) by (nonlinear_arith)
            requires
                result@.len() == 64 * ((origin@.len() + 72) / 64),
        ;
    }
    result
}

/// The big-endian 32-bit value of at most four bytes; fewer than four bytes
/// are left-justified, so a short tail contributes zero low-order bits.
pub fn bytes_to_u32(origin: &[u8]) -> (r: u32)
    requires
        origin@.len() <= 4,
    ensures
        r as int == be_u32_of(origin@),
{
    let len = origin.len();
    let b0: u32 = if len > 0 { origin[0] as u32 } else { 0 };
    let b1: u32 = if len > 1 { origin[1] as u32 } else { 0 };
    let b2: u32 = if len > 2 { origin[2] as u32 } else { 0 };
    let b3: u32 = if len > 3 { origin[3] as u32 } else { 0 };
    b0 * 0x1000000 + b1 * 0x10000 + b2 * 0x100 + b3
}

/// Splits `origin` into big-endian 32-bit words, dropping a trailing partial
/// word.
pub fn bytes_to_u32_array(origin: &[u8]) -> (r: Vec<u32>)
    ensures
        r@.len() == origin@.len() / 4,
        forall|k: int| 0 <= k < r@.len() ==> r@[k] as int == word_at(origin@, k),
{
    let len = origin.len();
    let n_words = len / 4;
    let mut result: Vec<u32> = Vec::new();
    let mut i: usize = 0;
    while i < n_words
        invariant
            len == origin@.len(),
            n_words == len / 4,
            i <= n_words,
            i == result@.len(),
            forall|k: int| 0 <= k < result@.len() ==> result@[k] as int == word_at(origin@, k),
        decreases n_words - i,
    {
        proof {
            assert(4 * i + 4 <= len) by (nonlinear_arith)
                requires
                    i < len / 4,
            ;
        }
        let offset = 4 * i;
        let chunk = slice_subrange(origin, offset, offset + 4);
        let w = bytes_to_u32(chunk);
        proof {
            assert(chunk@ =~= origin@.subrange(4 * i as int, 4 * i as int + 4));
        }
        result.push(w);
        i = i + 1;
    }
    result
}

} // verus!
