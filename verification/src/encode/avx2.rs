//! The AVX2 block encoder: a dword permutation and a byte shuffle (per
//! 128-bit half) bring the bytes `b a c b` of one group into each of eight
//! 32-bit lanes, which are reshuffled and translated as in SSSE3.

use vstd::prelude::*;

use crate::encode::python::{self, BulkEncoder, EncodeError, encode_outcome, outcome};

use crate::encode::alphabet::{AlphabetTable, alphabet_with_suffix, standard_alphabet};
use crate::encode::ssse3::{lemma_reshuffle, push_translated, reshuffle, shuffled_lane};
use crate::model::{blocks, blocks_from, group, lemma_blocks_split};

verus! {

/// Input bytes taken by one round (eight lanes of three bytes).
const BYTES_CONSUMED_PER_ROUND: usize = 24;

/// The dword permutation (`vpermd`): dword `i` of the result is dword
/// `PERMUTE[i]` of the load, which shifts the upper 128-bit half by four
/// bytes; the loaded dword 7 is not kept.
const PERMUTE: [u8; 8] = [0, 0, 1, 2, 3, 4, 5, 6];

/// The byte shuffle (`vpshufb`, per 128-bit half): byte `k` of the result
/// is byte `SHUFFLE[k]` of its own half of the permuted vector.
const SHUFFLE: [u8; 32] = [
    5, 4, 6, 5, 8, 7, 9, 8, 11, 10, 12, 11, 14, 13, 15, 14,
    1, 0, 2, 1, 4, 3, 5, 4, 7, 6, 8, 7, 10, 9, 11, 10,
];

/// The offset from the load of byte `k` of the permuted vector.
spec fn permuted_offset(k: int) -> int {
    4 * PERMUTE@[k / 4] + k % 4
}

/// The offset from the load of byte `k` of the permuted and shuffled
/// vector.
spec fn shuffled_offset(k: int) -> int {
    permuted_offset(16 * (k / 16) + SHUFFLE@[k] as int)
}

/// The permutation and shuffle put the bytes `3j + 1`, `3j`, `3j + 2`,
/// `3j + 1` of the load into lane `j`; no byte past the 28th is used.
proof fn lemma_lane_offsets(j: int)
    requires
        0 <= j < 8,
    ensures
        shuffled_offset(4 * j) == 3 * j + 1,
        shuffled_offset(4 * j + 1) == 3 * j,
        shuffled_offset(4 * j + 2) == 3 * j + 2,
        shuffled_offset(4 * j + 3) == 3 * j + 1,
        forall|t: int| 0 <= t < 4 ==> SHUFFLE@[#[trigger] (4 * j + t)] < 16,
{
    assert(PERMUTE@ =~= seq![0u8, 0, 1, 2, 3, 4, 5, 6]);
    assert(SHUFFLE@ =~= seq![
        5u8, 4, 6, 5, 8, 7, 9, 8, 11, 10, 12, 11, 14, 13, 15, 14,
        1, 0, 2, 1, 4, 3, 5, 4, 7, 6, 8, 7, 10, 9, 11, 10,
    ]);
}

/// Byte `k` of the 32 bytes loaded from `base`, permuted and shuffled.
fn shuffled_byte(input: &[u8], base: usize, k: usize) -> (r: u8)
    requires
        k < 32,
        SHUFFLE@[k as int] < 16,
        base + permuted_offset(16 * (k as int / 16) + SHUFFLE@[k as int] as int) < input@.len(),
    ensures
        r == input@[base + shuffled_offset(k as int)],
{
    let index = 16 * (k / 16) + (SHUFFLE[k] & 0x0fu8) as usize;
    proof {
        let t = SHUFFLE@[k as int];
        assert(t & 0x0fu8 == t) by (bit_vector)
            requires
                t < 16,
        ;
    }
    assert(PERMUTE@ =~= seq![0u8, 0, 1, 2, 3, 4, 5, 6]);
    let len = input.len();
    assert(base + permuted_offset(index as int) < len);
    input[base + 4 * (PERMUTE[index / 4] as usize) + index % 4]
}

/// Lane `lane` of the 32 bytes loaded from `base`, permuted and shuffled:
/// the bytes `b a c b` of group `lane` of the load.
fn shuffle_lane(input: &[u8], base: usize, lane: usize) -> (r: u32)
    requires
        base + 28 <= input@.len(),
        lane < 8,
    ensures
        r == shuffled_lane(
            input@[base + 3 * lane],
            input@[base + 3 * lane + 1],
            input@[base + 3 * lane + 2],
        ),
{
    proof {
        lemma_lane_offsets(lane as int);
        assert(SHUFFLE@[4 * lane + 0] < 16);
        assert(SHUFFLE@[4 * lane + 1] < 16);
        assert(SHUFFLE@[4 * lane + 2] < 16);
        assert(SHUFFLE@[4 * lane + 3] < 16);
    }
    let b0 = shuffled_byte(input, base, 4 * lane);
    let b1 = shuffled_byte(input, base, 4 * lane + 1);
    let b2 = shuffled_byte(input, base, 4 * lane + 2);
    let b3 = shuffled_byte(input, base, 4 * lane + 3);
    (b0 as u32) | ((b1 as u32) << 8u32) | ((b2 as u32) << 16u32) | ((b3 as u32) << 24u32)
}

/// Encodes the eight groups of a 28-byte window from group `g` on, with
/// `plus` and `slash` for 62 and 63 when `altchars` is set. Only the 28
/// bytes that the permutation keeps are read: a full 32-byte load from the
/// last round's window could reach past the end of the input.
fn encode_block_lanes(input: &[u8], g: usize, out: &mut Vec<u8>, altchars: bool, plus: u8, slash: u8)
    requires
        3 * g + 28 <= input@.len(),
    ensures
        final(out)@ == old(out)@ + blocks_from(
            input@,
            if altchars {
                alphabet_with_suffix(plus, slash)
            } else {
                standard_alphabet()
            },
            g as nat,
            8,
        ),
{
    let ghost alphabet = if altchars {
        alphabet_with_suffix(plus, slash)
    } else {
        standard_alphabet()
    };
    let len = input.len();
    assert(3 * g + 28 <= len);
    let base = 3 * g;
    let mut lane: usize = 0;
    while lane < 8
        invariant
            lane <= 8,
            base == 3 * g,
            base + 28 <= input@.len(),
            alphabet == (if altchars {
                alphabet_with_suffix(plus, slash)
            } else {
                standard_alphabet()
            }),
            out@ == old(out)@ + blocks_from(input@, alphabet, g as nat, lane as nat),
        decreases 8 - lane,
    {
        let shuffled = shuffle_lane(input, base, lane);
        let ghost a = input@[base + 3 * lane];
        let ghost b = input@[base + 3 * lane + 1];
        let ghost c = input@[base + 3 * lane + 2];
        proof {
            lemma_reshuffle(a, b, c);
        }
        let r = reshuffle(shuffled);
        push_translated(r, Ghost(a), Ghost(b), Ghost(c), out, altchars, plus, slash);
        proof {
            assert(blocks_from(input@, alphabet, g as nat, (lane + 1) as nat) == blocks_from(
                input@,
                alphabet,
                g as nat,
                lane as nat,
            ) + group(input@, alphabet, g + lane));
            assert(out@ =~= old(out)@ + blocks_from(input@, alphabet, g as nat, (lane + 1) as nat));
        }
        lane += 1;
    }
}

/// Encodes the eight groups of the window from group `g` on with the
/// standard alphabet.
fn encode_block(input: &[u8], g: usize, out: &mut Vec<u8>)
    requires
        3 * g + 28 <= input@.len(),
    ensures
        final(out)@ == old(out)@ + blocks_from(input@, standard_alphabet(), g as nat, 8),
{
    encode_block_lanes(input, g, out, false, 0, 0);
}

/// `encode_block` with `plus` and `slash` for the values 62 and 63.
fn encode_block_with_altchars(input: &[u8], g: usize, out: &mut Vec<u8>, plus: u8, slash: u8)
    requires
        3 * g + 28 <= input@.len(),
    ensures
        final(out)@ == old(out)@ + blocks_from(input@, alphabet_with_suffix(plus, slash), g as nat, 8),
{
    encode_block_lanes(input, g, out, true, plus, slash);
}

/// The number of input bytes that the AVX2 bulk encoder takes: rounds of
/// 24 bytes that leave at least four bytes after the last one, and none
/// for inputs under 32 bytes.
pub open spec fn prefix_len(len: nat) -> nat {
    if len < 32 {
        0
    } else {
        ((len - 4) / 24 * 24) as nat
    }
}

/// Encodes the longest prefix of `input` that whole rounds cover (see
/// `prefix_len`) with the standard alphabet, `alphabet`'s last two
/// characters standing for 62 and 63, and returns its length.
pub fn encode_simd_prefix(input: &[u8], out: &mut Vec<u8>, alphabet: &AlphabetTable) -> (consumed:
    usize)
    ensures
        consumed == prefix_len(input@.len()),
        consumed % 3 == 0,
        final(out)@ == old(out)@ + blocks(
            input@,
            alphabet_with_suffix(alphabet.0@[62], alphabet.0@[63]),
            consumed as nat / 3,
        ),
{
    let len = input.len();
    let ghost used = alphabet_with_suffix(alphabet.0@[62], alphabet.0@[63]);
    if len < 32 {
        assert(out@ =~= old(out)@ + blocks(input@, used, 0));
        return 0;
    }
    let rounds = (len - 4) / BYTES_CONSUMED_PER_ROUND;
    let consumed = rounds * BYTES_CONSUMED_PER_ROUND;
    let plus = alphabet.0[62];
    let slash = alphabet.0[63];
    let standard = plus == 43u8 && slash == 47u8;
    proof {
        if standard {
            assert(used =~= standard_alphabet());
        }
    }
    let mut round: usize = 0;
    while round < rounds
        invariant
            round <= rounds,
            rounds == (len - 4) / 24,
            len == input@.len(),
            standard ==> used == standard_alphabet(),
            used == alphabet_with_suffix(plus, slash),
            out@ == old(out)@ + blocks(input@, used, 8 * round as nat),
        decreases rounds - round,
    {
        let g = 8 * round;
        if standard {
            encode_block(input, g, out);
        } else {
            encode_block_with_altchars(input, g, out, plus, slash);
        }
        proof {
            lemma_blocks_split(input@, used, g as nat, 8);
        }
        round += 1;
    }
    consumed
}

/// Encodes `input` as `python::encode` does, the first part with the
/// AVX2 bulk encoder.
pub fn encode(input: &[u8], altchars: Option<&[u8]>, padded: bool, wrapcol: isize) -> (result: Result<
    Vec<u8>,
    EncodeError,
>)
    ensures
        outcome(result) == encode_outcome(input@, altchars, padded, wrapcol as int, BulkEncoder::Avx2),
{
    python::encode(input, altchars, padded, wrapcol, BulkEncoder::Avx2)
}

} // verus!
