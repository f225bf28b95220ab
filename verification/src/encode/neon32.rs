//! The NEON (32-bit ARM) block encoder: the AArch64 de-interleaving load
//! and reshuffle, then a translation by range offsets (as in SSSE3), with the
//! alphabet's own last two characters blended in for the values 62 and 63.

use vstd::prelude::*;

use crate::encode::python::{self, BulkEncoder, EncodeError, encode_outcome, outcome};

use crate::encode::alphabet::{AlphabetTable, alphabet_with_suffix, standard_char};
use crate::encode::neon64::{lemma_interleaved_groups, reshuffle, vld3q_u8, vst4q_u8};
use crate::model::{
    blocks,
    blocks_from,
    lemma_blocks_split,
    lemma_sextets_bounded,
    sextet0,
    sextet1,
    sextet2,
    sextet3,
};

verus! {

/// Input bytes taken by one round (sixteen lanes of three bytes).
const BYTES_CONSUMED_PER_ROUND: usize = 48;

/// The offsets that turn a 6-bit value into its character, by range:
/// `A`-`Z` (+65), `a`-`z` (+71), `0`-`9` (-4), `+` (-19), `/` (-16).
const TRANSLATE_LUT: [u8; 16] = [65, 71, 252, 252, 252, 252, 252, 252, 252, 252, 252, 252, 237, 240, 0, 0];

/// A 128-bit table lookup built from two 64-bit ones: the entry of `lut`
/// at `index`, or zero past its sixteen entries.
pub fn vqtbl1q_u8(lut: &[u8; 16], index: u8) -> (r: u8)
    ensures
        r == if index < 16 {
            lut@[index as int]
        } else {
            0u8
        },
{
    if index < 16 {
        lut[index as usize]
    } else {
        0
    }
}

/// One byte of the translation of a 6-bit value `v` to its character in
/// the standard alphabet: a saturating subtraction and an unsigned
/// compare give the index of `v`'s range, whose offset is added to `v`.
pub fn translate(v: u8) -> (r: u8)
    ensures
        v < 64 ==> r == standard_char(v as int),
{
    let indices = v.saturating_sub(51u8);
    let mask: u8 = if v > 25u8 {
        0xffu8
    } else {
        0u8
    };
    let indices = indices.wrapping_sub(mask);
    let delta = vqtbl1q_u8(&TRANSLATE_LUT, indices);
    assert(TRANSLATE_LUT@ =~= seq![65u8, 71u8, 252u8, 252u8, 252u8, 252u8, 252u8, 252u8, 252u8, 252u8, 252u8, 252u8, 237u8, 240u8, 0u8, 0u8]);
    v.wrapping_add(delta)
}

/// `translate`, with `plus` and `slash` in place of the characters of
/// the values 62 and 63: lanes equal to 62 or 63 are masked out of the
/// standard result and filled from `plus` and `slash`.
pub fn translate_with_altchars(v: u8, plus: u8, slash: u8) -> (r: u8)
    ensures
        v < 64 ==> r == alphabet_with_suffix(plus, slash)[v as int],
{
    let encoded = translate(v);
    let is_62: u8 = if v == 62 {
        0xffu8
    } else {
        0u8
    };
    let is_63: u8 = if v == 63 {
        0xffu8
    } else {
        0u8
    };
    let others = !(is_62 | is_63) & encoded;
    let r = others | ((is_62 & plus) | (is_63 & slash));
    proof {
        if v == 62 {
            assert(r == plus) by (bit_vector)
                requires
                    is_62 == 0xffu8,
                    is_63 == 0u8,
                    others == !(is_62 | is_63) & encoded,
                    r == others | ((is_62 & plus) | (is_63 & slash)),
            ;
        } else if v == 63 {
            assert(r == slash) by (bit_vector)
                requires
                    is_62 == 0u8,
                    is_63 == 0xffu8,
                    others == !(is_62 | is_63) & encoded,
                    r == others | ((is_62 & plus) | (is_63 & slash)),
            ;
        } else {
            assert(r == encoded) by (bit_vector)
                requires
                    is_62 == 0u8,
                    is_63 == 0u8,
                    others == !(is_62 | is_63) & encoded,
                    r == others | ((is_62 & plus) | (is_63 & slash)),
            ;
        }
    }
    r
}

/// The reshuffle and the translation, lane by lane: lane `i` of result
/// vector `k` is the character, in the standard alphabet with `plus` and
/// `slash` for 62 and 63, of the `k`-th 6-bit value of the group held in
/// lane `i` of the three input vectors.
fn reshuffle_and_translate(v0: &Vec<u8>, v1: &Vec<u8>, v2: &Vec<u8>, plus: u8, slash: u8) -> (r: (
    Vec<u8>,
    Vec<u8>,
    Vec<u8>,
    Vec<u8>,
))
    requires
        v0@.len() == 16 && v1@.len() == 16 && v2@.len() == 16,
    ensures
        r.0@.len() == 16 && r.1@.len() == 16 && r.2@.len() == 16 && r.3@.len() == 16,
        forall|i: int|
            0 <= i < 16 ==> #[trigger] r.0@[i] == alphabet_with_suffix(plus, slash)[sextet0(v0@[i]) as int]
                && r.1@[i] == alphabet_with_suffix(plus, slash)[sextet1(v0@[i], v1@[i]) as int] && r.2@[i]
                == alphabet_with_suffix(plus, slash)[sextet2(v1@[i], v2@[i]) as int] && r.3@[i]
                == alphabet_with_suffix(plus, slash)[sextet3(v2@[i]) as int],
{
    let ghost al = alphabet_with_suffix(plus, slash);
    let mut w0: Vec<u8> = Vec::new();
    let mut w1: Vec<u8> = Vec::new();
    let mut w2: Vec<u8> = Vec::new();
    let mut w3: Vec<u8> = Vec::new();
    let mut i: usize = 0;
    while i < 16
        invariant
            i <= 16,
            al == alphabet_with_suffix(plus, slash),
            v0@.len() == 16 && v1@.len() == 16 && v2@.len() == 16,
            w0@.len() == i && w1@.len() == i && w2@.len() == i && w3@.len() == i,
            forall|j: int|
                0 <= j < i ==> #[trigger] w0@[j] == al[sextet0(v0@[j]) as int] && w1@[j] == al[sextet1(
                    v0@[j],
                    v1@[j],
                ) as int] && w2@[j] == al[sextet2(v1@[j], v2@[j]) as int] && w3@[j] == al[sextet3(
                    v2@[j],
                ) as int],
        decreases 16 - i,
    {
        let (s0, s1, s2, s3) = reshuffle(v0[i], v1[i], v2[i]);
        proof {
            lemma_sextets_bounded(v0@[i as int], v1@[i as int], v2@[i as int]);
        }
        w0.push(translate_with_altchars(s0, plus, slash));
        w1.push(translate_with_altchars(s1, plus, slash));
        w2.push(translate_with_altchars(s2, plus, slash));
        w3.push(translate_with_altchars(s3, plus, slash));
        i += 1;
    }
    (w0, w1, w2, w3)
}

/// Encodes the sixteen groups of the 48 bytes from group `g` on, with
/// `plus` and `slash` for 62 and 63: the bytes are de-interleaved so that
/// lane `i` of three vectors holds group `g + i`, and the four result
/// vectors are interleaved back.
fn encode_block(input: &[u8], g: usize, out: &mut Vec<u8>, plus: u8, slash: u8)
    requires
        3 * g + 48 <= input@.len(),
    ensures
        final(out)@ == old(out)@ + blocks_from(input@, alphabet_with_suffix(plus, slash), g as nat, 16),
{
    let ghost al = alphabet_with_suffix(plus, slash);
    let len = input.len();
    assert(3 * g + 48 <= len);
    let base = 3 * g;
    let (v0, v1, v2) = vld3q_u8(input, base);
    let (w0, w1, w2, w3) = reshuffle_and_translate(&v0, &v1, &v2, plus, slash);
    vst4q_u8(out, &w0, &w1, &w2, &w3);
    proof {
        assert forall|i: int| 0 <= i < 16 implies #[trigger] w0@[i] == al[sextet0(input@[3 * (g + i)]) as int]
            && w1@[i] == al[sextet1(input@[3 * (g + i)], input@[3 * (g + i) + 1]) as int] && w2@[i]
            == al[sextet2(input@[3 * (g + i) + 1], input@[3 * (g + i) + 2]) as int] && w3@[i]
            == al[sextet3(input@[3 * (g + i) + 2]) as int] by {
            assert(3 * (g + i) == base + 3 * i);
            assert(v0@[i] == input@[base + 3 * i]);
            assert(v1@[i] == input@[base + 3 * i + 1]);
            assert(v2@[i] == input@[base + 3 * i + 2]);
            assert(w0@[i] == al[sextet0(v0@[i]) as int]);
        }
        lemma_interleaved_groups(input@, al, g as nat, w0@, w1@, w2@, w3@, 16);
    }
}

/// The number of input bytes that the 32-bit NEON bulk encoder takes:
/// whole rounds of 48 bytes.
pub open spec fn prefix_len(len: nat) -> nat {
    (len / 48 * 48) as nat
}

/// Encodes the longest prefix of `input` that whole rounds of 48 bytes
/// cover with the standard alphabet, `alphabet`'s last two characters
/// standing for 62 and 63, and returns its length.
pub fn encode_simd_prefix(input: &[u8], out: &mut Vec<u8>, alphabet: &AlphabetTable) -> (consumed:
    usize)
    ensures
        consumed == prefix_len(input@.len()),
        consumed % 3 == 0,
        final(out)@ == old(out)@ + blocks(
            input@,
            alphabet_with_suffix(alphabet.0@[62], alphabet.0@[63]),
            consumed as nat / 3,
        ),
{
    let len = input.len();
    let plus = alphabet.0[62];
    let slash = alphabet.0[63];
    let ghost al = alphabet_with_suffix(plus, slash);
    assert(out@ =~= old(out)@ + blocks(input@, al, 0));
    if len < 48 {
        return 0;
    }
    let rounds = len / BYTES_CONSUMED_PER_ROUND;
    let mut round: usize = 0;
    while round < rounds
        invariant
            round <= rounds,
            rounds == len / 48,
            len == input@.len(),
            al == alphabet_with_suffix(plus, slash),
            out@ == old(out)@ + blocks(input@, al, 16 * round as nat),
        decreases rounds - round,
    {
        encode_block(input, 16 * round, out, plus, slash);
        proof {
            lemma_blocks_split(input@, al, 16 * round as nat, 16);
        }
        round += 1;
    }
    rounds * BYTES_CONSUMED_PER_ROUND
}

/// Encodes `input` as `python::encode` does, the first part with the
/// 32-bit NEON bulk encoder.
pub fn encode(input: &[u8], altchars: Option<&[u8]>, padded: bool, wrapcol: isize) -> (result: Result<
    Vec<u8>,
    EncodeError,
>)
    ensures
        outcome(result) == encode_outcome(input@, altchars, padded, wrapcol as int, BulkEncoder::Neon32),
{
    python::encode(input, altchars, padded, wrapcol, BulkEncoder::Neon32)
}

} // verus!
