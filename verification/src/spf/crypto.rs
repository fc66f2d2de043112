//! ChaCha20 stream encryption of SPF packs.
//!
//! Each FINFO record is XORed with the keystream of one fixed ChaCha20
//! state; each resource is XORed with the keystream of a state derived from
//! its offset, its size and the pack's raw version word.  Encryption and
//! decryption are the same operation.

use vstd::prelude::*;
use crate::spf::types::FINFO_SIZE;

verus! {

/// 32-bit addition modulo 2^32.
pub open spec fn wadd32(x: u32, y: u32) -> u32 {
    vstd::wrapping::u32_specs::wrapping_add(x, y)
}

/// 32-bit left rotation by `n` (0 < n < 32).
pub open spec fn rotl32(x: u32, n: u32) -> u32 {
    (x << n) | (x >> ((32 - n) as u32))
}

/// One ChaCha20 quarter round on the words `a`, `b`, `c`, `d` of a state.
pub open spec fn quarter_round_spec(s: Seq<u32>, a: int, b: int, c: int, d: int) -> Seq<u32> {
    let s = s.update(a, wadd32(s[a], s[b]));
    let s = s.update(d, rotl32(s[d] ^ s[a], 16));
    let s = s.update(c, wadd32(s[c], s[d]));
    let s = s.update(b, rotl32(s[b] ^ s[c], 12));
    let s = s.update(a, wadd32(s[a], s[b]));
    let s = s.update(d, rotl32(s[d] ^ s[a], 8));
    let s = s.update(c, wadd32(s[c], s[d]));
    s.update(b, rotl32(s[b] ^ s[c], 7))
}

/// A column round followed by a diagonal round.
pub open spec fn double_round_spec(s: Seq<u32>) -> Seq<u32> {
    let s = quarter_round_spec(s, 0, 4, 8, 12);
    let s = quarter_round_spec(s, 1, 5, 9, 13);
    let s = quarter_round_spec(s, 2, 6, 10, 14);
    let s = quarter_round_spec(s, 3, 7, 11, 15);
    let s = quarter_round_spec(s, 0, 5, 10, 15);
    let s = quarter_round_spec(s, 1, 6, 11, 12);
    let s = quarter_round_spec(s, 2, 7, 8, 13);
    quarter_round_spec(s, 3, 4, 9, 14)
}

/// `n` double rounds.
pub open spec fn rounds_spec(s: Seq<u32>, n: nat) -> Seq<u32>
    decreases n,
{
    if n == 0 {
        s
    } else {
        double_round_spec(rounds_spec(s, (n - 1) as nat))
    }
}

/// The little-endian bytes of a 32-bit word.
pub open spec fn le_bytes32(w: u32) -> Seq<u8> {
    seq![(w & 0xff) as u8, ((w >> 8) & 0xff) as u8, ((w >> 16) & 0xff) as u8, ((w >> 24) & 0xff) as u8]
}

/// The little-endian bytes of a sequence of words, one word after another.
pub open spec fn words_le_bytes(ws: Seq<u32>) -> Seq<u8>
    decreases ws.len(),
{
    if ws.len() == 0 {
        Seq::empty()
    } else {
        words_le_bytes(ws.drop_last()) + le_bytes32(ws.last())
    }
}

/// The output words of the ChaCha20 block function: twenty rounds, then the
/// initial state added word by word.
pub open spec fn block_words_spec(init: Seq<u32>) -> Seq<u32> {
    let r = rounds_spec(init, 10);
    Seq::new(16, |i: int| wadd32(r[i], init[i]))
}

/// The 64 keystream bytes of one block.
pub open spec fn block_bytes_spec(init: Seq<u32>) -> Seq<u8> {
    words_le_bytes(block_words_spec(init))
}

/// The state of the next block: the counter word 12 goes up by one.
pub open spec fn next_counter_spec(s: Seq<u32>) -> Seq<u32> {
    s.update(12, wadd32(s[12], 1))
}

/// `a` XOR `k`, byte by byte, over the length of `a`.
pub open spec fn xor_bytes(a: Seq<u8>, k: Seq<u8>) -> Seq<u8> {
    Seq::new(a.len(), |i: int| a[i] ^ k[i])
}

/// ChaCha20 applied to `data` from `state`: every 64-byte chunk is XORed with
/// the block of the current state, and the counter goes up after each chunk.
pub open spec fn xor_stream(data: Seq<u8>, state: Seq<u32>) -> Seq<u8>
    decreases data.len(),
{
    if data.len() <= 64 {
        xor_bytes(data, block_bytes_spec(state))
    } else {
        xor_bytes(data.take(64), block_bytes_spec(state)) + xor_stream(
            data.skip(64),
            next_counter_spec(state),
        )
    }
}

/// The fixed ChaCha20 state of the FINFO records (key, counter 0, nonce).
pub open spec fn finfo_state_spec() -> Seq<u32> {
    seq![
        0x6170_7865u32, 0x3320_646e, 0x7962_2d32, 0x6b20_6574,
        0x4810_c68d, 0xdead_19a0, 0xb7ef_3972, 0x2152_e65f,
        0x4810_c68d, 0xdead_19a0, 0xb7ef_3972, 0x2152_e65f,
        0x0000_0000, 0x0000_003a, 0xffff_ffc5, 0x4810_c6b7,
    ]
}

/// Base value of the per-resource state derivation.
pub open spec fn resource_base() -> u64 {
    0xdead_19a0_4810_c68du64
}

/// The 64-bit mix of a resource's offset and size.
pub open spec fn resource_mixed_spec(offset: i32, size: i32) -> u64 {
    let m = ((offset as u32 as u64) << 32u64) | (size as u32 as u64);
    m ^ vstd::wrapping::u64_specs::wrapping_mul(m >> 13u64, 0xc6a4_a793_5bd1_e995u64)
}

/// The version mix: the raw version word sign-extended to 64 bits, times
/// the golden-ratio constant, modulo 2^64.
pub open spec fn version_mix_spec(raw_version: u32) -> u64 {
    vstd::wrapping::u64_specs::wrapping_mul(
        raw_version as i32 as i64 as u64,
        0x9e37_79b9_7f4a_7c15u64,
    )
}

/// The ChaCha20 state of the resource at `offset` with `size` bytes in a
/// pack whose raw version word (encryption flag included) is `raw_version`.
pub open spec fn resource_state_spec(offset: i32, size: i32, raw_version: u32) -> Seq<u32> {
    let mixed = resource_mixed_spec(offset, size);
    let vm = version_mix_spec(raw_version);
    let base = resource_base();
    let q0 = mixed ^ vm ^ base;
    let q1 = vstd::wrapping::u64_specs::wrapping_add(vm, base) ^ (mixed >> 32u64);
    let q2 = vstd::wrapping::u64_specs::wrapping_add(
        vstd::wrapping::u64_specs::wrapping_shl(mixed, 17) ^ base,
        vm,
    );
    let q3 = ((base << 32u64) | (base >> 32u64)) ^ vstd::wrapping::u64_specs::wrapping_add(
        mixed,
        vm,
    );
    seq![
        0x6e20_6843u32, 0x646e_6167, 0x2065_6854, 0x6b63_6150,
        q0 as u32, (q0 >> 32u64) as u32,
        q1 as u32, (q1 >> 32u64) as u32,
        q2 as u32, (q2 >> 32u64) as u32,
        q3 as u32, (q3 >> 32u64) as u32,
        mixed as u32,
        offset as u32,
        (size as u32) ^ raw_version,
        wadd32((base >> 32u64) as u32, offset as u32),
    ]
}

/// The ChaCha20 state of a resource, word by word, as the client derives
/// it: four fixed constant words ("Ch nganThe Pack"), the offset/size mix
/// folded with the version mix and the base in words 4 to 11, the low half
/// of the offset/size mix (the block counter) in word 12, the offset in
/// word 13, the size XOR the raw version word in word 14, and the base's
/// high half plus the offset in word 15.  Every 64-bit operation wraps
/// modulo 2^64, every 32-bit one modulo 2^32; the raw version word is
/// sign-extended before it is mixed.
pub proof fn lemma_resource_state_words(offset: i32, size: i32, raw_version: u32)
    ensures
        ({
            let s = resource_state_spec(offset, size, raw_version);
            let base: u64 = 0xdead_19a0_4810_c68du64;
            let packed: u64 = ((offset as u32 as u64) << 32u64) | (size as u32 as u64);
            let m: u64 = packed ^ vstd::wrapping::u64_specs::wrapping_mul(
                packed >> 13u64,
                0xc6a4_a793_5bd1_e995u64,
            );
            let v: u64 = vstd::wrapping::u64_specs::wrapping_mul(
                raw_version as i32 as i64 as u64,
                0x9e37_79b9_7f4a_7c15u64,
            );
            let q0: u64 = m ^ v ^ base;
            let q1: u64 = vstd::wrapping::u64_specs::wrapping_add(v, base) ^ (m >> 32u64);
            let q2: u64 = vstd::wrapping::u64_specs::wrapping_add(
                vstd::wrapping::u64_specs::wrapping_shl(m, 17) ^ base,
                v,
            );
            let q3: u64 = 0x4810_c68d_dead_19a0u64 ^ vstd::wrapping::u64_specs::wrapping_add(m, v);
            &&& s.len() == 16
            &&& s[0] == 0x6e20_6843u32
            &&& s[1] == 0x646e_6167u32
            &&& s[2] == 0x2065_6854u32
            &&& s[3] == 0x6b63_6150u32
            &&& s[4] == q0 as u32 && s[5] == (q0 >> 32u64) as u32
            &&& s[6] == q1 as u32 && s[7] == (q1 >> 32u64) as u32
            &&& s[8] == q2 as u32 && s[9] == (q2 >> 32u64) as u32
            &&& s[10] == q3 as u32 && s[11] == (q3 >> 32u64) as u32
            &&& s[12] == m as u32
            &&& s[13] == offset as u32
            &&& s[14] == (size as u32) ^ raw_version
            &&& s[15] == vstd::wrapping::u32_specs::wrapping_add(0xdead_19a0u32, offset as u32)
        }),
{
    let base: u64 = 0xdead_19a0_4810_c68du64;
    assert(((base << 32u64) | (base >> 32u64)) == 0x4810_c68d_dead_19a0u64) by (bit_vector)
        requires
            base == 0xdead_19a0_4810_c68du64,
    ;
    assert((base >> 32u64) as u32 == 0xdead_19a0u32) by (bit_vector)
        requires
            base == 0xdead_19a0_4810_c68du64,
    ;
}

/// Resources at different offsets, or of different sizes, or in packs with
/// different raw version words, start from different ChaCha20 states.
pub proof fn lemma_resource_states_differ(
    o1: i32,
    s1: i32,
    v1: u32,
    o2: i32,
    s2: i32,
    v2: u32,
)
    requires
        o1 != o2 || (s1 == s2 && v1 != v2) || (v1 == v2 && s1 != s2),
    ensures
        resource_state_spec(o1, s1, v1) != resource_state_spec(o2, s2, v2),
{
    lemma_resource_state_words(o1, s1, v1);
    lemma_resource_state_words(o2, s2, v2);
    if o1 != o2 {
        assert((o1 as u32) != (o2 as u32)) by (bit_vector)
            requires
                o1 != o2,
        ;
        assert(resource_state_spec(o1, s1, v1)[13] != resource_state_spec(o2, s2, v2)[13]);
    } else if s1 == s2 {
        assert(((s1 as u32) ^ v1) != ((s2 as u32) ^ v2)) by (bit_vector)
            requires
                s1 == s2,
                v1 != v2,
        ;
        assert(resource_state_spec(o1, s1, v1)[14] != resource_state_spec(o2, s2, v2)[14]);
    } else {
        assert(((s1 as u32) ^ v1) != ((s2 as u32) ^ v2)) by (bit_vector)
            requires
                s1 != s2,
                v1 == v2,
        ;
        assert(resource_state_spec(o1, s1, v1)[14] != resource_state_spec(o2, s2, v2)[14]);
    }
}

/// The FINFO state is standard ChaCha20: the "expand 32-byte k" constants,
/// the 256-bit key whose two halves are the same 128 bits (8D C6 10 48 A0
/// 19 AD DE 72 39 EF B7 5F E6 52 21, as little-endian words), counter 0,
/// and the nonce 3A 00 00 00 C5 FF FF FF B7 C6 10 48.
pub proof fn lemma_finfo_state_words()
    ensures
        ({
            let s = finfo_state_spec();
            &&& s.len() == 16
            &&& s[0] == 0x6170_7865u32 && s[1] == 0x3320_646eu32
            &&& s[2] == 0x7962_2d32u32 && s[3] == 0x6b20_6574u32
            &&& s[4] == 0x4810_c68du32 && s[5] == 0xdead_19a0u32
            &&& s[6] == 0xb7ef_3972u32 && s[7] == 0x2152_e65fu32
            &&& forall|i: int| 4 <= i < 8 ==> #[trigger] s[i + 4] == s[i]
            &&& s[12] == 0u32
            &&& s[13] == 0x0000_003au32 && s[14] == 0xffff_ffc5u32 && s[15] == 0x4810_c6b7u32
        }),
{
}

fn quarter_round(state: &mut [u32; 16], a: usize, b: usize, c: usize, d: usize)
    requires
        a < 16,
        b < 16,
        c < 16,
        d < 16,
    ensures
        final(state)@ == quarter_round_spec(old(state)@, a as int, b as int, c as int, d as int),
{
    state[a] = state[a].wrapping_add(state[b]);
    let x = state[d] ^ state[a];
    state[d] = (x << 16u32) | (x >> 16u32);

    state[c] = state[c].wrapping_add(state[d]);
    let x = state[b] ^ state[c];
    state[b] = (x << 12u32) | (x >> 20u32);

    state[a] = state[a].wrapping_add(state[b]);
    let x = state[d] ^ state[a];
    state[d] = (x << 8u32) | (x >> 24u32);

    state[c] = state[c].wrapping_add(state[d]);
    let x = state[b] ^ state[c];
    state[b] = (x << 7u32) | (x >> 25u32);
}

fn chacha20_block(initial_state: [u32; 16]) -> (out: Vec<u8>)
    ensures
        out@ == block_bytes_spec(initial_state@),
        out@.len() == 64,
{
    let mut state = initial_state;
    let mut round: usize = 0;
    while round < 10
        invariant
            round <= 10,
            state@ == rounds_spec(initial_state@, round as nat),
        decreases 10 - round,
    {
        quarter_round(&mut state, 0, 4, 8, 12);
        quarter_round(&mut state, 1, 5, 9, 13);
        quarter_round(&mut state, 2, 6, 10, 14);
        quarter_round(&mut state, 3, 7, 11, 15);

        quarter_round(&mut state, 0, 5, 10, 15);
        quarter_round(&mut state, 1, 6, 11, 12);
        quarter_round(&mut state, 2, 7, 8, 13);
        quarter_round(&mut state, 3, 4, 9, 14);
        round = round + 1;
    }

    let ghost words = block_words_spec(initial_state@);
    let mut output: Vec<u8> = Vec::new();
    let mut i: usize = 0;
    while i < 16
        invariant
            i <= 16,
            state@ == rounds_spec(initial_state@, 10),
            words == block_words_spec(initial_state@),
            output@ == words_le_bytes(words.take(i as int)),
            output@.len() == 4 * i,
        decreases 16 - i,
    {
        let w = state[i].wrapping_add(initial_state[i]);
        output.push((w & 0xff) as u8);
        output.push(((w >> 8u32) & 0xff) as u8);
        output.push(((w >> 16u32) & 0xff) as u8);
        output.push(((w >> 24u32) & 0xff) as u8);
        proof {
            assert(words.take(i + 1).drop_last() =~= words.take(i as int));
            assert(words.take(i + 1).last() == w);
        }
        i = i + 1;
    }
    proof {
        assert(words.take(16) =~= words);
    }
    output
}

fn chacha20_xor(data: &mut [u8], state: [u32; 16])
    ensures
        final(data)@ == xor_stream(old(data)@, state@),
{
    let ghost original = data@;
    let len = data.len();
    let mut state = state;
    let ghost init = state@;
    let mut pos: usize = 0;
    proof {
        assert(original.skip(0) =~= original);
    }
    while pos < len
        invariant
            len == original.len(),
            data@.len() == len,
            pos <= len,
            xor_stream(original, init) == data@.take(pos as int) + xor_stream(
                original.skip(pos as int),
                state@,
            ),
            data@.skip(pos as int) == original.skip(pos as int),
        decreases len - pos,
    {
        let key_stream = chacha20_block(state);
        let end = if len - pos <= 64 { len } else { pos + 64 };
        let ghost before = data@;
        let ghost rest = original.skip(pos as int);
        let mut j = pos;
        while j < end
            invariant
                pos <= j <= end,
                end <= len,
                end - pos <= 64,
                key_stream@.len() == 64,
                data@.len() == len,
                forall|k: int| 0 <= k < pos ==> data@[k] == before[k],
                forall|k: int| end <= k < len ==> data@[k] == before[k],
                forall|k: int| j <= k < end ==> data@[k] == before[k],
                forall|k: int| pos <= k < j ==> data@[k] == before[k] ^ key_stream@[k - pos],
            decreases end - j,
        {
            data[j] = data[j] ^ key_stream[j - pos];
            j = j + 1;
        }
        proof {
            let chunk = xor_bytes(rest.take((end - pos) as int), block_bytes_spec(state@));
            assert(rest.len() == len - pos);
            if len - pos <= 64 {
                assert(rest.take((end - pos) as int) =~= rest);
                assert(xor_stream(rest, state@) == chunk);
            } else {
                assert(xor_stream(rest, state@) == chunk + xor_stream(
                    rest.skip(64),
                    next_counter_spec(state@),
                ));
                assert(rest.skip(64) =~= original.skip(end as int));
            }
            assert(data@.take(end as int) =~= data@.take(pos as int) + chunk) by {
                assert forall|k: int| 0 <= k < end implies data@.take(end as int)[k] == (
                data@.take(pos as int) + chunk)[k] by {
                    if k >= pos {
                        assert(before[k] == original[k]) by {
                            assert(before.skip(pos as int)[k - pos] == original.skip(
                                pos as int,
                            )[k - pos]);
                        }
                    }
                }
            }
            assert(data@.take(pos as int) =~= before.take(pos as int));
            assert(data@.skip(end as int) =~= original.skip(end as int)) by {
                assert forall|k: int| 0 <= k < len - end implies data@.skip(end as int)[k]
                    == original.skip(end as int)[k] by {
                    assert(before.skip(pos as int)[k + end - pos] == original.skip(
                        pos as int,
                    )[k + end - pos]);
                }
            }
        }
        let ghost prev = state@;
        state[12] = state[12].wrapping_add(1);
        proof {
            assert(state@ =~= next_counter_spec(prev));
            if len - pos <= 64 {
                assert(xor_stream(original.skip(end as int), state@) =~= Seq::<u8>::empty());
                assert(data@.take(end as int) + Seq::<u8>::empty() =~= data@.take(end as int));
            }
        }
        pos = end;
    }
    proof {
        assert(data@.take(len as int) =~= data@);
        assert(original.skip(len as int).len() == 0);
    }
}

/// The byte form of `n` words is four bytes per word.
pub proof fn lemma_words_le_bytes_len(ws: Seq<u32>)
    ensures
        words_le_bytes(ws).len() == 4 * ws.len(),
    decreases ws.len(),
{
    if ws.len() > 0 {
        lemma_words_le_bytes_len(ws.drop_last());
    }
}

/// XORing with a keystream keeps the length of the data.
pub proof fn lemma_xor_stream_len(data: Seq<u8>, state: Seq<u32>)
    ensures
        xor_stream(data, state).len() == data.len(),
    decreases data.len(),
{
    if data.len() > 64 {
        lemma_xor_stream_len(data.skip(64), next_counter_spec(state));
    }
}

/// XORing twice with the same keystream gives back the data.
proof fn lemma_xor_bytes_twice(a: Seq<u8>, k: Seq<u8>)
    requires
        a.len() <= k.len(),
    ensures
        xor_bytes(xor_bytes(a, k), k) == a,
{
    assert forall|i: int| 0 <= i < a.len() implies xor_bytes(xor_bytes(a, k), k)[i] == a[i] by {
        let x = a[i];
        let y = k[i];
        assert((x ^ y) ^ y == x) by (bit_vector);
    }
    assert(xor_bytes(xor_bytes(a, k), k) =~= a);
}

/// ChaCha20 from one state is its own inverse: applying it twice to any data
/// gives the data back.  Encrypting and decrypting are the same operation.
pub proof fn lemma_xor_stream_involution(data: Seq<u8>, state: Seq<u32>)
    ensures
        xor_stream(xor_stream(data, state), state) == data,
    decreases data.len(),
{
    lemma_words_le_bytes_len(block_words_spec(state));
    let k = block_bytes_spec(state);
    let e = xor_stream(data, state);
    lemma_xor_stream_len(data, state);
    if data.len() <= 64 {
        lemma_xor_bytes_twice(data, k);
    } else {
        let head = xor_bytes(data.take(64), k);
        let tail = xor_stream(data.skip(64), next_counter_spec(state));
        lemma_xor_stream_len(data.skip(64), next_counter_spec(state));
        assert(e.take(64) =~= head);
        assert(e.skip(64) =~= tail);
        lemma_xor_bytes_twice(data.take(64), k);
        lemma_xor_stream_involution(data.skip(64), next_counter_spec(state));
        assert(data =~= data.take(64) + data.skip(64));
    }
}

/// Decrypting an encrypted FINFO record gives the record back.
pub proof fn lemma_crypt_finfo_involution(record: Seq<u8>)
    ensures
        xor_stream(xor_stream(record, finfo_state_spec()), finfo_state_spec()) == record,
{
    lemma_xor_stream_involution(record, finfo_state_spec());
}

/// Decrypting an encrypted resource (same offset, size and raw version)
/// gives the resource back.
pub proof fn lemma_crypt_resource_involution(
    data: Seq<u8>,
    offset: i32,
    size: i32,
    raw_version: u32,
)
    ensures
        xor_stream(
            xor_stream(data, resource_state_spec(offset, size, raw_version)),
            resource_state_spec(offset, size, raw_version),
        ) == data,
{
    lemma_xor_stream_involution(data, resource_state_spec(offset, size, raw_version));
}

fn finfo_state() -> (s: [u32; 16])
    ensures
        s@ == finfo_state_spec(),
{
    let s: [u32; 16] = [
        0x6170_7865, 0x3320_646e, 0x7962_2d32, 0x6b20_6574,
        0x4810_c68d, 0xdead_19a0, 0xb7ef_3972, 0x2152_e65f,
        0x4810_c68d, 0xdead_19a0, 0xb7ef_3972, 0x2152_e65f,
        0x0000_0000, 0x0000_003a, 0xffff_ffc5, 0x4810_c6b7,
    ];
    assert(s@ =~= finfo_state_spec());
    s
}

/// XORs one FINFO record with the fixed FINFO keystream (encrypts a plain
/// record, decrypts an encrypted one).
pub fn crypt_finfo(data: &mut [u8; FINFO_SIZE])
    ensures
        final(data)@ == xor_stream(old(data)@, finfo_state_spec()),
{
    chacha20_xor(data, finfo_state());
}

/// XORs one resource with the keystream derived from its offset, its size
/// and the pack's raw version word.
pub fn crypt_resource(data: &mut [u8], offset: i32, size: i32, raw_version: u32)
    ensures
        final(data)@ == xor_stream(old(data)@, resource_state_spec(offset, size, raw_version)),
{
    chacha20_xor(data, derive_resource_state(offset, size, raw_version));
}

/// Derives the ChaCha20 state of one resource.
pub fn derive_resource_state(offset: i32, size: i32, raw_version: u32) -> (state: [u32; 16])
    ensures
        state@ == resource_state_spec(offset, size, raw_version),
        state@[13] == offset as u32,
        state@[14] == (size as u32) ^ raw_version,
        state@[15] == vstd::wrapping::u32_specs::wrapping_add(0xdead_19a0u32, offset as u32),
{
    let base: u64 = 0xdead_19a0_4810_c68d;
    let off = offset as u32;
    let sz = size as u32;
    let mut mixed: u64 = ((off as u64) << 32u64) | (sz as u64);
    let version64 = (raw_version as i32 as i64) as u64;
    let version_mix = version64.wrapping_mul(0x9e37_79b9_7f4a_7c15);
    mixed = mixed ^ (mixed >> 13u64).wrapping_mul(0xc6a4_a793_5bd1_e995);

    let q0 = mixed ^ version_mix ^ base;
    let q1 = version_mix.wrapping_add(base) ^ (mixed >> 32u64);
    let q2 = (mixed.wrapping_shl(17) ^ base).wrapping_add(version_mix);
    let q3 = ((base << 32u64) | (base >> 32u64)) ^ mixed.wrapping_add(version_mix);

    let state: [u32; 16] = [
        0x6e20_6843,
        0x646e_6167,
        0x2065_6854,
        0x6b63_6150,
        q0 as u32,
        (q0 >> 32u64) as u32,
        q1 as u32,
        (q1 >> 32u64) as u32,
        q2 as u32,
        (q2 >> 32u64) as u32,
        q3 as u32,
        (q3 >> 32u64) as u32,
        mixed as u32,
        off,
        sz ^ raw_version,
        ((base >> 32u64) as u32).wrapping_add(off),
    ];
    assert(state@ =~= resource_state_spec(offset, size, raw_version));
    proof {
        lemma_resource_state_words(offset, size, raw_version);
    }
    state
}

} // verus!
