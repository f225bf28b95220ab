//! The SSSE3 block encoder: a byte shuffle of the 16 loaded bytes puts one
//! group of three input bytes, as `b a c b`, into each 32-bit lane of the
//! 128-bit vector; the reshuffle spreads it into four 6-bit values, and
//! the translation turns them into characters by adding an offset looked
//! up per range.

use vstd::prelude::*;

use crate::encode::python::{self, BulkEncoder, EncodeError, encode_outcome, outcome};

use crate::encode::alphabet::{AlphabetTable, alphabet_with_suffix, standard_alphabet, standard_char};
use crate::model::{blocks, blocks_from, group, lemma_blocks_split, lemma_sextets_bounded, quad, sextet0, sextet1, sextet2, sextet3};

verus! {

/// Input bytes taken by one round (four lanes of three bytes).
const BYTES_CONSUMED_PER_ROUND: usize = 12;

/// The offsets that turn a 6-bit value into its character, by range:
/// `A`-`Z` (+65), `a`-`z` (+71), `0`-`9` (-4), `+` (-19), `/` (-16).
const TRANSLATE_LUT: [u8; 16] = [65, 71, 252, 252, 252, 252, 252, 252, 252, 252, 252, 252, 237, 240, 0, 0];

/// `pmulhuw` on one 32-bit lane: each 16-bit half of `a` times the same
/// half of `b`, keeping the high 16 bits of each product.
pub open spec fn mulhi_lane(a: u32, b: u32) -> u32 {
    ((((a & 0xffffu32) * (b & 0xffffu32)) as u32) >> 16u32) | ((((((a >> 16u32) * (b
        >> 16u32)) as u32) >> 16u32)) << 16u32)
}

/// `pmullw` on one 32-bit lane: each 16-bit half of `a` times the same
/// half of `b`, keeping the low 16 bits of each product.
pub open spec fn mullo_lane(a: u32, b: u32) -> u32 {
    ((((a & 0xffffu32) * (b & 0xffffu32)) as u32) & 0xffffu32) | ((((((a >> 16u32) * (b
        >> 16u32)) as u32) & 0xffffu32)) << 16u32)
}

proof fn lemma_half_products(a: u32, b: u32)
    ensures
        (a & 0xffffu32) * (b & 0xffffu32) <= u32::MAX,
        (a >> 16u32) * (b >> 16u32) <= u32::MAX,
{
    let a_low = a & 0xffffu32;
    let b_low = b & 0xffffu32;
    let a_high = a >> 16u32;
    let b_high = b >> 16u32;
    assert(a_low < 65536 && b_low < 65536 && a_high < 65536 && b_high < 65536) by (bit_vector)
        requires
            a_low == a & 0xffffu32,
            b_low == b & 0xffffu32,
            a_high == a >> 16u32,
            b_high == b >> 16u32,
    ;
    assert(a_low * b_low <= 65535 * 65535) by (nonlinear_arith)
        requires
            a_low < 65536,
            b_low < 65536,
    ;
    assert(a_high * b_high <= 65535 * 65535) by (nonlinear_arith)
        requires
            a_high < 65536,
            b_high < 65536,
    ;
}

/// The high 16 bits of each of the two 16-bit products of one lane.
pub fn mm_mulhi_epu16(a: u32, b: u32) -> (r: u32)
    ensures
        r == mulhi_lane(a, b),
{
    proof {
        lemma_half_products(a, b);
    }
    (((a & 0xffffu32) * (b & 0xffffu32)) >> 16u32) | ((((a >> 16u32) * (b >> 16u32)) >> 16u32)
        << 16u32)
}

/// The low 16 bits of each of the two 16-bit products of one lane.
fn mm_mullo_epi16(a: u32, b: u32) -> (r: u32)
    ensures
        r == mullo_lane(a, b),
{
    proof {
        lemma_half_products(a, b);
    }
    (((a & 0xffffu32) * (b & 0xffffu32)) & 0xffffu32) | ((((a >> 16u32) * (b >> 16u32))
        & 0xffffu32) << 16u32)
}

/// The lane that the byte shuffle makes of the group `a b c`: the bytes
/// `b a c b`, least significant first.
pub open spec fn shuffled_lane(a: u8, b: u8, c: u8) -> u32 {
    (b as u32) | ((a as u32) << 8u32) | ((c as u32) << 16u32) | ((b as u32) << 24u32)
}

/// A reshuffled lane holds the four 6-bit values of its group, the first
/// in the least significant byte.
pub open spec fn holds_sextets(r: u32, a: u8, b: u8, c: u8) -> bool {
    &&& r & 0xffu32 == sextet0(a) as u32
    &&& (r >> 8u32) & 0xffu32 == sextet1(a, b) as u32
    &&& (r >> 16u32) & 0xffu32 == sextet2(b, c) as u32
    &&& r >> 24u32 == sextet3(c) as u32
}

proof fn lemma_reshuffle_lane(a: u8, b: u8, c: u8, lane: u32, t1: u32, t3: u32)
    requires
        lane == shuffled_lane(a, b, c),
        t1 == mulhi_lane(lane & 0x0fc0fc00u32, 0x04000040u32),
        t3 == mullo_lane(lane & 0x003f03f0u32, 0x01000010u32),
    ensures
        holds_sextets(t1 | t3, a, b, c),
{
    assert(holds_sextets(t1 | t3, a, b, c)) by (bit_vector)
        requires
            lane == shuffled_lane(a, b, c),
            t1 == mulhi_lane(lane & 0x0fc0fc00u32, 0x04000040u32),
            t3 == mullo_lane(lane & 0x003f03f0u32, 0x01000010u32),
    ;
}

/// What the reshuffle makes of one 32-bit lane: the lane masked and
/// multiplied twice, as `pmulhuw` and `pmullw` do.
pub open spec fn reshuffled(lane: u32) -> u32 {
    mulhi_lane(lane & 0x0fc0fc00u32, 0x04000040u32) | mullo_lane(lane & 0x003f03f0u32, 0x01000010u32)
}

/// The reshuffle law: a lane shuffled to `b a c b` is reshuffled into the
/// four 6-bit values of the group `a b c`, one per byte.
pub proof fn lemma_reshuffle(a: u8, b: u8, c: u8)
    ensures
        holds_sextets(reshuffled(shuffled_lane(a, b, c)), a, b, c),
{
    let lane = shuffled_lane(a, b, c);
    lemma_reshuffle_lane(
        a,
        b,
        c,
        lane,
        mulhi_lane(lane & 0x0fc0fc00u32, 0x04000040u32),
        mullo_lane(lane & 0x003f03f0u32, 0x01000010u32),
    );
}

/// One 32-bit lane of the reshuffle: the lane is masked and multiplied so
/// that, when it holds `b a c b`, each byte ends up holding one 6-bit value
/// of the group `a b c` (see `lemma_reshuffle`).
pub fn reshuffle(lane: u32) -> (r: u32)
    ensures
        r == reshuffled(lane),
{
    let t0 = lane & 0x0fc0fc00u32;
    let t1 = mm_mulhi_epu16(t0, 0x04000040u32);
    let t2 = lane & 0x003f03f0u32;
    let t3 = mm_mullo_epi16(t2, 0x01000010u32);
    t1 | t3
}

/// `pshufb` on one byte: zero when the top bit of `index` is set, else the
/// entry of `table` at the low four bits of `index`.
fn shuffle_byte(table: &[u8; 16], index: u8) -> (r: u8)
    ensures
        r == if index >= 128 {
            0u8
        } else {
            table@[(index % 16) as int]
        },
{
    if index & 0x80u8 != 0 {
        assert(index >= 128) by (bit_vector)
            requires
                index & 0x80u8 != 0,
        ;
        0
    } else {
        assert(index < 128 && index & 0x0fu8 == index % 16) by (bit_vector)
            requires
                index & 0x80u8 == 0,
        ;
        table[(index & 0x0fu8) as usize]
    }
}

/// One byte of the translation of a 6-bit value `v` to its character in
/// the standard alphabet: a saturating subtraction and a signed compare
/// give the index of `v`'s range, whose offset is added to `v`.
pub fn translate(v: u8) -> (r: u8)
    ensures
        v < 64 ==> r == standard_char(v as int),
{
    let indices = v.saturating_sub(51u8);
    let mask: u8 = if (v as i8) > 25i8 {
        0xffu8
    } else {
        0u8
    };
    let indices = indices.wrapping_sub(mask);
    let offset = shuffle_byte(&TRANSLATE_LUT, indices);
    assert(TRANSLATE_LUT@ =~= seq![65u8, 71u8, 252u8, 252u8, 252u8, 252u8, 252u8, 252u8, 252u8, 252u8, 252u8, 252u8, 237u8, 240u8, 0u8, 0u8]);
    v.wrapping_add(offset)
}

/// `translate`, with `plus` and `slash` in place of the characters of
/// the values 62 and 63: lanes that held 62 or 63 are masked out of the
/// standard result and filled from `plus` and `slash`.
pub fn translate_with_altchars(v: u8, plus: u8, slash: u8) -> (r: u8)
    ensures
        v < 64 ==> r == alphabet_with_suffix(plus, slash)[v as int],
{
    let encoded = translate(v);
    let is_62: u8 = if v == 62 {
        0xffu8
    } else {
        0u8
    };
    let is_63: u8 = if v == 63 {
        0xffu8
    } else {
        0u8
    };
    let others = !(is_62 | is_63) & encoded;
    let r = others | ((is_62 & plus) | (is_63 & slash));
    proof {
        if v == 62 {
            assert(r == plus) by (bit_vector)
                requires
                    is_62 == 0xffu8,
                    is_63 == 0u8,
                    others == !(is_62 | is_63) & encoded,
                    r == others | ((is_62 & plus) | (is_63 & slash)),
            ;
        } else if v == 63 {
            assert(r == slash) by (bit_vector)
                requires
                    is_62 == 0u8,
                    is_63 == 0xffu8,
                    others == !(is_62 | is_63) & encoded,
                    r == others | ((is_62 & plus) | (is_63 & slash)),
            ;
        } else {
            assert(r == encoded) by (bit_vector)
                requires
                    is_62 == 0u8,
                    is_63 == 0u8,
                    others == !(is_62 | is_63) & encoded,
                    r == others | ((is_62 & plus) | (is_63 & slash)),
            ;
        }
    }
    r
}

/// Appends the characters of the four 6-bit values that the reshuffled
/// lane `r` holds for the group `a b c`, translated (with `plus` and
/// `slash` for 62 and 63 when `altchars` is set).
pub(crate) fn push_translated(
    r: u32,
    Ghost(a): Ghost<u8>,
    Ghost(b): Ghost<u8>,
    Ghost(c): Ghost<u8>,
    out: &mut Vec<u8>,
    altchars: bool,
    plus: u8,
    slash: u8,
)
    requires
        holds_sextets(r, a, b, c),
    ensures
        final(out)@ == old(out)@ + quad(
            if altchars {
                alphabet_with_suffix(plus, slash)
            } else {
                standard_alphabet()
            },
            a,
            b,
            c,
        ),
{
    proof {
        lemma_sextets_bounded(a, b, c);
    }
    let s0 = (r & 0xffu32) as u8;
    let s1 = ((r >> 8u32) & 0xffu32) as u8;
    let s2 = ((r >> 16u32) & 0xffu32) as u8;
    let s3 = (r >> 24u32) as u8;
    if altchars {
        out.push(translate_with_altchars(s0, plus, slash));
        out.push(translate_with_altchars(s1, plus, slash));
        out.push(translate_with_altchars(s2, plus, slash));
        out.push(translate_with_altchars(s3, plus, slash));
    } else {
        out.push(translate(s0));
        out.push(translate(s1));
        out.push(translate(s2));
        out.push(translate(s3));
    }
    assert(out@ =~= old(out)@ + quad(
        if altchars {
            alphabet_with_suffix(plus, slash)
        } else {
            standard_alphabet()
        },
        a,
        b,
        c,
    ));
}

/// The byte shuffle of the reshuffle: lane `j` of the shuffled vector takes
/// the loaded bytes `3j + 1`, `3j`, `3j + 2`, `3j + 1`.
const SHUFFLE: [u8; 16] = [1, 0, 2, 1, 4, 3, 5, 4, 7, 6, 8, 7, 10, 9, 11, 10];

/// The offsets that `SHUFFLE` picks, lane by lane.
proof fn lemma_shuffle_table(lane: int)
    requires
        0 <= lane < 4,
    ensures
        SHUFFLE@[4 * lane] == 3 * lane + 1,
        SHUFFLE@[4 * lane + 1] == 3 * lane,
        SHUFFLE@[4 * lane + 2] == 3 * lane + 2,
        SHUFFLE@[4 * lane + 3] == 3 * lane + 1,
        SHUFFLE@[4 * lane] < 16 && SHUFFLE@[4 * lane + 1] < 16,
        SHUFFLE@[4 * lane + 2] < 16 && SHUFFLE@[4 * lane + 3] < 16,
{
    assert(SHUFFLE@ =~= seq![1u8, 0, 2, 1, 4, 3, 5, 4, 7, 6, 8, 7, 10, 9, 11, 10]);
}

/// Lane `lane` of the 16 bytes loaded from `base`, shuffled by `SHUFFLE`
/// (`pshufb`: every index is below 16, so none clears its byte).
fn shuffle_lane(input: &[u8], base: usize, lane: usize) -> (r: u32)
    requires
        base + 16 <= input@.len(),
        lane < 4,
    ensures
        r == shuffled_lane(
            input@[base + 3 * lane],
            input@[base + 3 * lane + 1],
            input@[base + 3 * lane + 2],
        ),
{
    proof {
        lemma_shuffle_table(lane as int);
    }
    let i0 = (SHUFFLE[4 * lane] & 0x0fu8) as usize;
    let i1 = (SHUFFLE[4 * lane + 1] & 0x0fu8) as usize;
    let i2 = (SHUFFLE[4 * lane + 2] & 0x0fu8) as usize;
    let i3 = (SHUFFLE[4 * lane + 3] & 0x0fu8) as usize;
    proof {
        let t0 = SHUFFLE@[4 * lane as int];
        let t1 = SHUFFLE@[4 * lane + 1];
        let t2 = SHUFFLE@[4 * lane + 2];
        let t3 = SHUFFLE@[4 * lane + 3];
        assert(t0 & 0x0fu8 == t0 && t1 & 0x0fu8 == t1 && t2 & 0x0fu8 == t2 && t3 & 0x0fu8 == t3)
            by (bit_vector)
            requires
                t0 < 16 && t1 < 16 && t2 < 16 && t3 < 16,
        ;
    }
    let len = input.len();
    assert(base + 16 <= len);
    (input[base + i0] as u32) | ((input[base + i1] as u32) << 8u32) | ((input[base + i2] as u32)
        << 16u32) | ((input[base + i3] as u32) << 24u32)
}

/// Encodes the four groups of the 16 bytes loaded from group `g` on (the
/// shuffle leaves the last four bytes out), with `plus` and `slash` for 62
/// and 63 when `altchars` is set.
fn encode_block_lanes(input: &[u8], g: usize, out: &mut Vec<u8>, altchars: bool, plus: u8, slash: u8)
    requires
        3 * g + 16 <= input@.len(),
    ensures
        final(out)@ == old(out)@ + blocks_from(
            input@,
            if altchars {
                alphabet_with_suffix(plus, slash)
            } else {
                standard_alphabet()
            },
            g as nat,
            4,
        ),
{
    let ghost alphabet = if altchars {
        alphabet_with_suffix(plus, slash)
    } else {
        standard_alphabet()
    };
    let len = input.len();
    assert(3 * g + 16 <= len);
    let base = 3 * g;
    let mut lane: usize = 0;
    while lane < 4
        invariant
            lane <= 4,
            base == 3 * g,
            base + 16 <= input@.len(),
            alphabet == (if altchars {
                alphabet_with_suffix(plus, slash)
            } else {
                standard_alphabet()
            }),
            out@ == old(out)@ + blocks_from(input@, alphabet, g as nat, lane as nat),
        decreases 4 - lane,
    {
        let shuffled = shuffle_lane(input, base, lane);
        let ghost a = input@[base + 3 * lane];
        let ghost b = input@[base + 3 * lane + 1];
        let ghost c = input@[base + 3 * lane + 2];
        proof {
            lemma_reshuffle(a, b, c);
        }
        let r = reshuffle(shuffled);
        push_translated(r, Ghost(a), Ghost(b), Ghost(c), out, altchars, plus, slash);
        proof {
            assert(blocks_from(input@, alphabet, g as nat, (lane + 1) as nat) == blocks_from(
                input@,
                alphabet,
                g as nat,
                lane as nat,
            ) + group(input@, alphabet, g + lane));
            assert(out@ =~= old(out)@ + blocks_from(input@, alphabet, g as nat, (lane + 1) as nat));
        }
        lane += 1;
    }
}

/// Encodes the four groups of the 16 bytes loaded from group `g` on.
fn encode_block(input: &[u8], g: usize, out: &mut Vec<u8>)
    requires
        3 * g + 16 <= input@.len(),
    ensures
        final(out)@ == old(out)@ + blocks_from(input@, standard_alphabet(), g as nat, 4),
{
    encode_block_lanes(input, g, out, false, 0, 0);
}

/// `encode_block` with `plus` and `slash` for the values 62 and 63.
fn encode_block_with_altchars(input: &[u8], g: usize, out: &mut Vec<u8>, plus: u8, slash: u8)
    requires
        3 * g + 16 <= input@.len(),
    ensures
        final(out)@ == old(out)@ + blocks_from(input@, alphabet_with_suffix(plus, slash), g as nat, 4),
{
    encode_block_lanes(input, g, out, true, plus, slash);
}

/// The number of input bytes that the SSSE3 bulk encoder takes: rounds of
/// twelve bytes that leave at least four bytes after the last one, and
/// none for inputs under sixteen bytes.
pub open spec fn prefix_len(len: nat) -> nat {
    if len < 16 {
        0
    } else {
        ((len - 4) / 12 * 12) as nat
    }
}

/// Encodes the longest prefix of `input` that whole rounds cover (see
/// `prefix_len`) with the standard alphabet, `alphabet`'s last two
/// characters standing for 62 and 63, and returns its length.
pub fn encode_simd_prefix(input: &[u8], out: &mut Vec<u8>, alphabet: &AlphabetTable) -> (consumed:
    usize)
    ensures
        consumed == prefix_len(input@.len()),
        consumed % 3 == 0,
        final(out)@ == old(out)@ + blocks(
            input@,
            alphabet_with_suffix(alphabet.0@[62], alphabet.0@[63]),
            consumed as nat / 3,
        ),
{
    let len = input.len();
    let ghost used = alphabet_with_suffix(alphabet.0@[62], alphabet.0@[63]);
    if len < 16 {
        assert(out@ =~= old(out)@ + blocks(input@, used, 0));
        return 0;
    }
    let blocks_count = (len - 4) / BYTES_CONSUMED_PER_ROUND;
    let consumed = blocks_count * BYTES_CONSUMED_PER_ROUND;
    let plus = alphabet.0[62];
    let slash = alphabet.0[63];
    let standard = plus == 43u8 && slash == 47u8;
    proof {
        if standard {
            assert(used =~= standard_alphabet());
        }
    }
    let mut block: usize = 0;
    while block < blocks_count
        invariant
            block <= blocks_count,
            blocks_count == (len - 4) / 12,
            len == input@.len(),
            standard ==> used == standard_alphabet(),
            used == alphabet_with_suffix(plus, slash),
            out@ == old(out)@ + blocks(input@, used, 4 * block as nat),
        decreases blocks_count - block,
    {
        let g = 4 * block;
        if standard {
            encode_block(input, g, out);
        } else {
            encode_block_with_altchars(input, g, out, plus, slash);
        }
        proof {
            lemma_blocks_split(input@, used, g as nat, 4);
        }
        block += 1;
    }
    consumed
}

/// Encodes `input` as `python::encode` does, the first part with the
/// SSSE3 bulk encoder.
pub fn encode(input: &[u8], altchars: Option<&[u8]>, padded: bool, wrapcol: isize) -> (result: Result<
    Vec<u8>,
    EncodeError,
>)
    ensures
        outcome(result) == encode_outcome(input@, altchars, padded, wrapcol as int, BulkEncoder::Ssse3),
{
    python::encode(input, altchars, padded, wrapcol, BulkEncoder::Ssse3)
}

} // verus!
