//! The AVX-512 (VBMI) block encoder: a byte permutation brings the bytes
//! `b a c b` of each group of three into a 32-bit lane, a multishift picks
//! the bits of each 6-bit value into its own byte, and a 64-entry
//! permutation looks the characters up in the alphabet itself.

use vstd::prelude::*;

use crate::encode::python::{self, BulkEncoder, EncodeError, encode_outcome, outcome};

use crate::encode::alphabet::AlphabetTable;
use crate::encode::ssse3::shuffled_lane;
use crate::model::{
    blocks,
    blocks_from,
    group,
    lemma_blocks_split,
    lemma_sextets_bounded,
    quad,
    sextet0,
    sextet1,
    sextet2,
    sextet3,
};

verus! {

/// Input bytes taken by one round (sixteen lanes of three bytes).
const BYTES_CONSUMED_PER_ROUND: usize = 48;

/// The index vector of the byte permutation (`vpermb`), byte by byte:
/// byte `k` of the permuted vector is byte `SHUFFLE_INPUT[k]` of the load
/// (as dwords, `0x0102_0001`, `0x0405_0304`, ..., `0x2e2f_2d2e`).
const SHUFFLE_INPUT: [u8; 64] = [
    1, 0, 2, 1, 4, 3, 5, 4, 7, 6, 8, 7, 10, 9, 11, 10,
    13, 12, 14, 13, 16, 15, 17, 16, 19, 18, 20, 19, 22, 21, 23, 22,
    25, 24, 26, 25, 28, 27, 29, 28, 31, 30, 32, 31, 34, 33, 35, 34,
    37, 36, 38, 37, 40, 39, 41, 40, 43, 42, 44, 43, 46, 45, 47, 46,
];

/// The bit offsets of the multishift (`vpmultishiftqb`), byte by byte:
/// byte `k` of each qword of the result is the eight bits of that qword
/// from bit `MULTI_SHIFTS[k]` on (as a qword, `0x3036_242a_1016_040a`).
const MULTI_SHIFTS: [u8; 8] = [10, 4, 22, 16, 42, 36, 54, 48];

/// The permutation puts the bytes `3j + 1`, `3j`, `3j + 2`, `3j + 1` of the
/// load into lane `j`; every index is below 48, inside the masked load.
proof fn lemma_shuffle_input(j: int)
    requires
        0 <= j < 16,
    ensures
        SHUFFLE_INPUT@[4 * j] == 3 * j + 1,
        SHUFFLE_INPUT@[4 * j + 1] == 3 * j,
        SHUFFLE_INPUT@[4 * j + 2] == 3 * j + 2,
        SHUFFLE_INPUT@[4 * j + 3] == 3 * j + 1,
{
    assert(SHUFFLE_INPUT@ =~= seq![
        1u8, 0, 2, 1, 4, 3, 5, 4, 7, 6, 8, 7, 10, 9, 11, 10,
        13, 12, 14, 13, 16, 15, 17, 16, 19, 18, 20, 19, 22, 21, 23, 22,
        25, 24, 26, 25, 28, 27, 29, 28, 31, 30, 32, 31, 34, 33, 35, 34,
        37, 36, 38, 37, 40, 39, 41, 40, 43, 42, 44, 43, 46, 45, 47, 46,
    ]);
}

/// Byte `k` of the 48 bytes loaded from `base`, permuted (the permutation
/// reads the low six bits of each index).
fn permuted_byte(input: &[u8], base: usize, k: usize) -> (r: u8)
    requires
        k < 64,
        SHUFFLE_INPUT@[k as int] < 48,
        base + 48 <= input@.len(),
    ensures
        r == input@[base + SHUFFLE_INPUT@[k as int]],
{
    let t = SHUFFLE_INPUT[k];
    assert(t & 63u8 == t) by (bit_vector)
        requires
            t < 48,
    ;
    let len = input.len();
    assert(base + 48 <= len);
    input[base + (t & 63u8) as usize]
}

/// Lane `lane` of the 48 bytes loaded from `base`, permuted: the bytes
/// `b a c b` of group `lane` of the load.
fn shuffle_lane(input: &[u8], base: usize, lane: usize) -> (r: u32)
    requires
        base + 48 <= input@.len(),
        lane < 16,
    ensures
        r == shuffled_lane(
            input@[base + 3 * lane],
            input@[base + 3 * lane + 1],
            input@[base + 3 * lane + 2],
        ),
{
    proof {
        lemma_shuffle_input(lane as int);
    }
    let b0 = permuted_byte(input, base, 4 * lane);
    let b1 = permuted_byte(input, base, 4 * lane + 1);
    let b2 = permuted_byte(input, base, 4 * lane + 2);
    let b3 = permuted_byte(input, base, 4 * lane + 3);
    (b0 as u32) | ((b1 as u32) << 8u32) | ((b2 as u32) << 16u32) | ((b3 as u32) << 24u32)
}

/// The eight bits of `q` from bit `shift` on (for shifts up to 56, where
/// the multishift's rotation brings no bit around).
spec fn multishift_byte(q: u64, shift: u8) -> u8 {
    ((q >> shift) & 0xffu64) as u8
}

/// Byte `k` of the multishift of the qword `q`.
fn multishift(q: u64, k: usize) -> (r: u8)
    requires
        k < 8,
    ensures
        r == multishift_byte(q, MULTI_SHIFTS@[k as int]),
{
    assert(MULTI_SHIFTS@ =~= seq![10u8, 4, 22, 16, 42, 36, 54, 48]);
    let shift = MULTI_SHIFTS[k];
    ((q >> (shift as u64)) & 0xffu64) as u8
}

/// The multishift of a qword of two lanes holds, in its eight bytes taken
/// modulo 64, the 6-bit values of the two groups.
proof fn lemma_multishift_qword(lo: u32, hi: u32, s: u64)
    requires
        s <= 24,
    ensures
        ((((lo as u64) | ((hi as u64) << 32u64)) >> s) & 0xffu64) == ((lo >> s) & 0xffu32) as u64,
        ((((lo as u64) | ((hi as u64) << 32u64)) >> (s + 32)) & 0xffu64) == ((hi >> s) & 0xffu32) as u64,
{
    assert(((((lo as u64) | ((hi as u64) << 32u64)) >> s) & 0xffu64) == ((lo >> s) & 0xffu32) as u64
        && ((((lo as u64) | ((hi as u64) << 32u64)) >> (s + 32)) & 0xffu64) == ((hi >> s) & 0xffu32) as u64)
        by (bit_vector)
        requires
            s <= 24,
    ;
}

/// The multishift of one lane holds each 6-bit value of its group in the
/// low six bits of its own byte (shifts 10, 4, 22 and 16).
proof fn lemma_multishift_lane(a: u8, b: u8, c: u8)
    ensures
        ({
            let lane = shuffled_lane(a, b, c);
            &&& (((lane >> 10u32) & 0xffu32) as u8) & 63u8 == sextet0(a)
            &&& (((lane >> 4u32) & 0xffu32) as u8) & 63u8 == sextet1(a, b)
            &&& (((lane >> 22u32) & 0xffu32) as u8) & 63u8 == sextet2(b, c)
            &&& (((lane >> 16u32) & 0xffu32) as u8) & 63u8 == sextet3(c)
        }),
{
    let lane = shuffled_lane(a, b, c);
    assert((((lane >> 10u32) & 0xffu32) as u8) & 63u8 == sextet0(a) && (((lane >> 4u32) & 0xffu32) as u8)
        & 63u8 == sextet1(a, b) && (((lane >> 22u32) & 0xffu32) as u8) & 63u8 == sextet2(b, c)
        && (((lane >> 16u32) & 0xffu32) as u8) & 63u8 == sextet3(c)) by (bit_vector)
        requires
            lane == shuffled_lane(a, b, c),
    ;
}

/// The character that byte `k` of the multishift of `q` picks from
/// `alphabet` (the lookup permutation reads the low six bits).
fn lookup(q: u64, k: usize, alphabet: &[u8; 64]) -> (r: u8)
    requires
        k < 8,
    ensures
        r == alphabet@[(multishift_byte(q, MULTI_SHIFTS@[k as int]) & 63u8) as int],
{
    let shifted = multishift(q, k);
    let index = shifted & 63u8;
    assert(index < 64) by (bit_vector)
        requires
            index == shifted & 63u8,
    ;
    alphabet[index as usize]
}

/// Encodes the two groups of qword `pair` of the 48 bytes loaded from
/// `base`: the permuted lanes `2 * pair` and `2 * pair + 1` make the qword,
/// and its eight multishifted bytes index `alphabet`.
fn encode_pair(input: &[u8], base: usize, pair: usize, out: &mut Vec<u8>, alphabet: &[u8; 64])
    requires
        base + 48 <= input@.len(),
        pair < 8,
    ensures
        final(out)@ == old(out)@ + quad(
            alphabet@,
            input@[base + 6 * pair],
            input@[base + 6 * pair + 1],
            input@[base + 6 * pair + 2],
        ) + quad(
            alphabet@,
            input@[base + 6 * pair + 3],
            input@[base + 6 * pair + 4],
            input@[base + 6 * pair + 5],
        ),
{
    let ghost a0 = input@[base + 6 * pair];
    let ghost b0 = input@[base + 6 * pair + 1];
    let ghost c0 = input@[base + 6 * pair + 2];
    let ghost a1 = input@[base + 6 * pair + 3];
    let ghost b1 = input@[base + 6 * pair + 4];
    let ghost c1 = input@[base + 6 * pair + 5];
    let lo = shuffle_lane(input, base, 2 * pair);
    let hi = shuffle_lane(input, base, 2 * pair + 1);
    let q = (lo as u64) | ((hi as u64) << 32u64);
    proof {
        assert(MULTI_SHIFTS@ =~= seq![10u8, 4, 22, 16, 42, 36, 54, 48]);
        lemma_multishift_lane(a0, b0, c0);
        lemma_multishift_lane(a1, b1, c1);
        lemma_multishift_qword(lo, hi, 10);
        lemma_multishift_qword(lo, hi, 4);
        lemma_multishift_qword(lo, hi, 22);
        lemma_multishift_qword(lo, hi, 16);
        lemma_sextets_bounded(a0, b0, c0);
        lemma_sextets_bounded(a1, b1, c1);
    }
    let r0 = lookup(q, 0, alphabet);
    let r1 = lookup(q, 1, alphabet);
    let r2 = lookup(q, 2, alphabet);
    let r3 = lookup(q, 3, alphabet);
    let r4 = lookup(q, 4, alphabet);
    let r5 = lookup(q, 5, alphabet);
    let r6 = lookup(q, 6, alphabet);
    let r7 = lookup(q, 7, alphabet);
    out.push(r0);
    out.push(r1);
    out.push(r2);
    out.push(r3);
    out.push(r4);
    out.push(r5);
    out.push(r6);
    out.push(r7);
    assert(out@ =~= old(out)@ + quad(alphabet@, a0, b0, c0) + quad(alphabet@, a1, b1, c1));
}

/// Encodes the sixteen groups of the 48 bytes from group `g` on.
fn encode_round(input: &[u8], g: usize, out: &mut Vec<u8>, alphabet: &[u8; 64])
    requires
        3 * g + 48 <= input@.len(),
    ensures
        final(out)@ == old(out)@ + blocks_from(input@, alphabet@, g as nat, 16),
{
    let len = input.len();
    assert(3 * g + 48 <= len);
    let base = 3 * g;
    let mut pair: usize = 0;
    while pair < 8
        invariant
            pair <= 8,
            base == 3 * g,
            base + 48 <= input@.len(),
            out@ == old(out)@ + blocks_from(input@, alphabet@, g as nat, 2 * pair as nat),
        decreases 8 - pair,
    {
        encode_pair(input, base, pair, out, alphabet);
        proof {
            let al = alphabet@;
            assert(blocks_from(input@, al, g as nat, (2 * pair + 1) as nat) == blocks_from(
                input@,
                al,
                g as nat,
                2 * pair as nat,
            ) + group(input@, al, g + 2 * pair));
            assert(blocks_from(input@, al, g as nat, (2 * pair + 2) as nat) == blocks_from(
                input@,
                al,
                g as nat,
                (2 * pair + 1) as nat,
            ) + group(input@, al, g + 2 * pair + 1));
            assert(out@ =~= old(out)@ + blocks_from(input@, al, g as nat, (2 * (pair + 1)) as nat));
        }
        pair += 1;
    }
}


/// The number of input bytes that the AVX-512 bulk encoder takes: whole
/// rounds of 48 bytes.
pub open spec fn prefix_len(len: nat) -> nat {
    (len / 48 * 48) as nat
}

/// Encodes the longest prefix of `input` that whole rounds of 48 bytes
/// cover with `alphabet`, and returns its length.
pub fn encode_simd_prefix(input: &[u8], out: &mut Vec<u8>, alphabet: &AlphabetTable) -> (consumed:
    usize)
    ensures
        consumed == prefix_len(input@.len()),
        consumed % 3 == 0,
        final(out)@ == old(out)@ + blocks(input@, alphabet.0@, consumed as nat / 3),
{
    let len = input.len();
    let ghost al = alphabet.0@;
    let rounds = len / BYTES_CONSUMED_PER_ROUND;
    assert(out@ =~= old(out)@ + blocks(input@, al, 0));
    let mut round: usize = 0;
    while round < rounds
        invariant
            round <= rounds,
            rounds == len / 48,
            len == input@.len(),
            al == alphabet.0@,
            out@ == old(out)@ + blocks(input@, al, 16 * round as nat),
        decreases rounds - round,
    {
        let g = 16 * round;
        encode_round(input, g, out, &alphabet.0);
        proof {
            lemma_blocks_split(input@, al, g as nat, 16);
        }
        round += 1;
    }
    rounds * BYTES_CONSUMED_PER_ROUND
}

/// Encodes `input` as `python::encode` does, the first part with the
/// AVX-512 bulk encoder.
pub fn encode(input: &[u8], altchars: Option<&[u8]>, padded: bool, wrapcol: isize) -> (result: Result<
    Vec<u8>,
    EncodeError,
>)
    ensures
        outcome(result) == encode_outcome(input@, altchars, padded, wrapcol as int, BulkEncoder::Avx512),
{
    python::encode(input, altchars, padded, wrapcol, BulkEncoder::Avx512)
}

} // verus!
