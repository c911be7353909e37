//! MurmurHash3 (x86, 32-bit) and basis-point bucketing.
//!
//! The hash is part of the wire contract: every implementation, server or
//! offline SDK, must produce bit-identical bucket values for any
//! (flag key, targeting key) pair, so that all of them pick the same variant.

use vstd::prelude::*;

verus! {

use vstd::wrapping::u32_specs;
use vstd::utf8::encode_utf8;

/// One scramble round applied to a 32-bit block.
pub open spec fn murmur_scramble(k: u32) -> u32 {
    let k1: u32 = u32_specs::wrapping_mul(k, 0xcc9e2d51);
    let k2: u32 = (k1 << 15) | (k1 >> 17);
    u32_specs::wrapping_mul(k2, 0x1b873593)
}

/// Mixing a scrambled block into the running state.
pub open spec fn murmur_mix(h: u32, k: u32) -> u32 {
    let h1: u32 = h ^ murmur_scramble(k);
    let h2: u32 = (h1 << 13) | (h1 >> 19);
    u32_specs::wrapping_add(u32_specs::wrapping_mul(h2, 5), 0xe6546b64)
}

/// The 32-bit little-endian block starting at byte offset `i` of `key`.
pub open spec fn block_at(key: Seq<u8>, i: int) -> u32
    recommends
        0 <= i,
        i + 4 <= key.len(),
{
    (key[i] as u32) | ((key[i + 1] as u32) << 8) | ((key[i + 2] as u32) << 16) | ((key[i + 3]
        as u32) << 24)
}

/// State after the first `n` four-byte blocks of `key` have been mixed in.
pub open spec fn murmur_body(key: Seq<u8>, seed: u32, n: int) -> u32
    recommends
        0 <= n,
        4 * n <= key.len(),
    decreases n,
{
    if n <= 0 {
        seed
    } else {
        murmur_mix(murmur_body(key, seed, n - 1), block_at(key, 4 * (n - 1)))
    }
}

/// The tail value folded from the 0 to 3 bytes after the last full block.
pub open spec fn murmur_tail(key: Seq<u8>) -> u32 {
    let off: int = 4 * ((key.len() / 4) as int);
    let rem: nat = key.len() % 4;
    let t0: u32 = if rem >= 3 {
        (key[off + 2] as u32) << 16
    } else {
        0
    };
    let t1: u32 = if rem >= 2 {
        t0 ^ ((key[off + 1] as u32) << 8)
    } else {
        t0
    };
    if rem >= 1 {
        t1 ^ (key[off] as u32)
    } else {
        t1
    }
}

/// Final avalanche mix.
pub open spec fn murmur_fmix(h: u32) -> u32 {
    let h1: u32 = h ^ (h >> 16);
    let h2: u32 = u32_specs::wrapping_mul(h1, 0x85ebca6b);
    let h3: u32 = h2 ^ (h2 >> 13);
    let h4: u32 = u32_specs::wrapping_mul(h3, 0xc2b2ae35);
    h4 ^ (h4 >> 16)
}

/// MurmurHash3 x86 32-bit of a byte sequence, as a mathematical function.
/// The algorithm folds the key length in as a 32-bit value; a longer key
/// contributes its length modulo 2^32, as the reference implementation's
/// cast does.
pub open spec fn murmur3(key: Seq<u8>, seed: u32) -> u32 {
    let body: u32 = murmur_body(key, seed, key.len() as int / 4);
    let rem: int = key.len() as int % 4;
    let with_tail: u32 = if rem >= 1 {
        body ^ murmur_scramble(murmur_tail(key))
    } else {
        body
    };
    murmur_fmix(with_tail ^ ((key.len() % 0x1_0000_0000) as u32))
}

/// The UTF-8 bytes hashed for a (flag key, targeting key) pair: the two keys
/// joined by a single ASCII '/' byte.
pub open spec fn bucket_input(flag_key: Seq<char>, targeting_key: Seq<char>) -> Seq<u8> {
    encode_utf8(flag_key) + seq![47u8] + encode_utf8(targeting_key)
}

/// The basis-point bucket for a (flag key, targeting key) pair.
pub open spec fn spec_bucket(flag_key: Seq<char>, targeting_key: Seq<char>) -> int {
    murmur3(bucket_input(flag_key, targeting_key), 0) as int % 10000
}

/// MurmurHash3 x86 32-bit with the given seed.
#[verifier::rlimit(100)]
pub fn murmurhash3(key: &[u8], seed: u32) -> (h: u32)
    ensures
        h == murmur3(key@, seed),
{
    let len: usize = key.len();
    let mut h1: u32 = seed;

    let n_blocks: usize = len / 4;
    let mut i: usize = 0;
    while i < n_blocks
        invariant
            key@.len() <= usize::MAX,
            n_blocks == key@.len() / 4,
            i <= n_blocks,
            h1 == murmur_body(key@, seed, i as int),
        decreases n_blocks - i,
    {
        proof {
            assert(4 * (i as int) + 4 <= key@.len());
        }
        let offset: usize = i * 4;
        let k: u32 = (key[offset] as u32) | ((key[offset + 1] as u32) << 8) | ((key[offset + 2]
            as u32) << 16) | ((key[offset + 3] as u32) << 24);
        let ghost h_prev: u32 = h1;

        let mut k1: u32 = k;
        k1 = k1.wrapping_mul(0xcc9e2d51);
        k1 = (k1 << 15) | (k1 >> 17);
        k1 = k1.wrapping_mul(0x1b873593);

        h1 = h1 ^ k1;
        h1 = (h1 << 13) | (h1 >> 19);
        h1 = h1.wrapping_mul(5).wrapping_add(0xe6546b64);

        proof {
            assert(k == block_at(key@, 4 * (i as int)));
            assert(h1 == murmur_mix(h_prev, k));
            assert(murmur_body(key@, seed, i as int + 1) == murmur_mix(
                murmur_body(key@, seed, i as int),
                block_at(key@, 4 * (i as int)),
            ));
        }
        i = i + 1;
    }

    let tail_offset: usize = n_blocks * 4;
    let tail_len: usize = len % 4;
    let mut k1: u32 = 0;
    proof {
        assert(forall|a: u32| #[trigger] (0u32 ^ a) == a) by (bit_vector);
    }
    if tail_len >= 3 {
        k1 = k1 ^ ((key[tail_offset + 2] as u32) << 16);
    }
    if tail_len >= 2 {
        k1 = k1 ^ ((key[tail_offset + 1] as u32) << 8);
    }
    if tail_len >= 1 {
        k1 = k1 ^ (key[tail_offset] as u32);
        assert(k1 == murmur_tail(key@));
        k1 = k1.wrapping_mul(0xcc9e2d51);
        k1 = (k1 << 15) | (k1 >> 17);
        k1 = k1.wrapping_mul(0x1b873593);
        h1 = h1 ^ k1;
        assert(h1 == murmur_body(key@, seed, key@.len() as int / 4) ^ murmur_scramble(
            murmur_tail(key@),
        ));
    }

    let len64: u64 = len as u64;
    let len32: u32 = (len64 % 0x1_0000_0000) as u32;
    h1 = h1 ^ len32;
    h1 = h1 ^ (h1 >> 16);
    h1 = h1.wrapping_mul(0x85ebca6b);
    h1 = h1 ^ (h1 >> 13);
    h1 = h1.wrapping_mul(0xc2b2ae35);
    h1 = h1 ^ (h1 >> 16);

    h1
}

/// The basis-point bucket for a (flag key, targeting key) pair: the two keys
/// joined by '/' are hashed as UTF-8 and the hash is reduced modulo 10000.
pub fn bucket(flag_key: &str, targeting_key: &str) -> (b: i32)
    ensures
        b as int == spec_bucket(flag_key@, targeting_key@),
        0 <= b < 10000,
{
    let fb: &[u8] = flag_key.as_bytes();
    let tb: &[u8] = targeting_key.as_bytes();
    let mut input: Vec<u8> = Vec::new();
    let mut i: usize = 0;
    while i < fb.len()
        invariant
            i <= fb@.len(),
            input@ =~= fb@.subrange(0, i as int),
        decreases fb@.len() - i,
    {
        input.push(fb[i]);
        i = i + 1;
        assert(input@ =~= fb@.subrange(0, i as int));
    }
    assert(input@ =~= fb@);
    input.push(47u8);
    let ghost mid: Seq<u8> = input@;
    let mut j: usize = 0;
    while j < tb.len()
        invariant
            j <= tb@.len(),
            mid == fb@ + seq![47u8],
            input@ =~= mid + tb@.subrange(0, j as int),
        decreases tb@.len() - j,
    {
        input.push(tb[j]);
        j = j + 1;
        assert(input@ =~= mid + tb@.subrange(0, j as int));
    }
    proof {
        assert(input@ =~= bucket_input(flag_key@, targeting_key@));
    }
    let h: u32 = murmurhash3(input.as_slice(), 0);
    (h % 10000) as i32
}

} // verus!
