//! The NEON (AArch64) block encoder: 48 input bytes are loaded
//! de-interleaved into three vectors, so that lane `i` of vector `k` holds
//! byte `k` of group `i`; shifts and shift-inserts spread them over four
//! vectors of 6-bit values, which a 64-entry table lookup turns into
//! characters of the alphabet.

use vstd::prelude::*;

use crate::encode::python::{self, BulkEncoder, EncodeError, encode_outcome, outcome};

use crate::encode::alphabet::AlphabetTable;
use crate::model::{
    blocks,
    blocks_from,
    group,
    lemma_blocks_split,
    lemma_sextets_bounded,
    sextet0,
    sextet1,
    sextet2,
    sextet3,
};

verus! {

/// Input bytes taken by one round (sixteen lanes of three bytes).
const BYTES_CONSUMED_PER_ROUND: usize = 48;

/// One lane of the reshuffle: `a >> 2`, then `b >> 4` with the low four
/// bits of `a` shifted in above it, `c >> 6` with the low six bits of `b`
/// shifted in above it, and `c`, the last three cleared to six bits.
pub fn reshuffle(a: u8, b: u8, c: u8) -> (r: (u8, u8, u8, u8))
    ensures
        r == (sextet0(a), sextet1(a, b), sextet2(b, c), sextet3(c)),
{
    let out0 = a >> 2u8;
    let out1 = b >> 4u8;
    let out2 = c >> 6u8;
    // shift left and insert: the shifted value above the kept low bits
    let out1 = (a << 4u8) | (out1 & 0x0fu8);
    let out2 = (b << 2u8) | (out2 & 0x03u8);
    let out1 = out1 & 0x3fu8;
    let out2 = out2 & 0x3fu8;
    let out3 = c & 0x3fu8;
    proof {
        assert(out1 == sextet1(a, b) && out2 == sextet2(b, c)) by (bit_vector)
            requires
                out1 == ((a << 4u8) | ((b >> 4u8) & 0x0fu8)) & 0x3fu8,
                out2 == ((b << 2u8) | ((c >> 6u8) & 0x03u8)) & 0x3fu8,
        ;
    }
    (out0, out1, out2, out3)
}

/// `tbl` over a 64-byte table: the entry at `index`, or zero past the end.
fn vqtbl4q_u8(table: &[u8; 64], index: u8) -> (r: u8)
    ensures
        r == if index < 64 {
            table@[index as int]
        } else {
            0u8
        },
{
    if index < 64 {
        table[index as usize]
    } else {
        0
    }
}

/// `vld3q_u8`: the 48 bytes from `base`, de-interleaved into three
/// vectors, so that lane `i` of vector `k` holds byte `3i + k`.
pub(crate) fn vld3q_u8(input: &[u8], base: usize) -> (r: (Vec<u8>, Vec<u8>, Vec<u8>))
    requires
        base + 48 <= input@.len(),
    ensures
        r.0@.len() == 16 && r.1@.len() == 16 && r.2@.len() == 16,
        forall|i: int|
            0 <= i < 16 ==> #[trigger] r.0@[i] == input@[base + 3 * i] && r.1@[i] == input@[base + 3
                * i + 1] && r.2@[i] == input@[base + 3 * i + 2],
{
    let len = input.len();
    let mut v0: Vec<u8> = Vec::new();
    let mut v1: Vec<u8> = Vec::new();
    let mut v2: Vec<u8> = Vec::new();
    let mut i: usize = 0;
    while i < 16
        invariant
            i <= 16,
            len == input@.len(),
            base + 48 <= len,
            v0@.len() == i && v1@.len() == i && v2@.len() == i,
            forall|j: int|
                0 <= j < i ==> #[trigger] v0@[j] == input@[base + 3 * j] && v1@[j] == input@[base + 3
                    * j + 1] && v2@[j] == input@[base + 3 * j + 2],
        decreases 16 - i,
    {
        v0.push(input[base + 3 * i]);
        v1.push(input[base + 3 * i + 1]);
        v2.push(input[base + 3 * i + 2]);
        i += 1;
    }
    (v0, v1, v2)
}

/// The first `n` lanes of four vectors, interleaved: lane 0 of each, then
/// lane 1 of each, and so on.
pub(crate) open spec fn interleaved(w0: Seq<u8>, w1: Seq<u8>, w2: Seq<u8>, w3: Seq<u8>, n: nat) -> Seq<
    u8,
>
    decreases n,
{
    if n == 0 {
        seq![]
    } else {
        interleaved(w0, w1, w2, w3, (n - 1) as nat) + seq![w0[n - 1], w1[n - 1], w2[n - 1], w3[n - 1]]
    }
}

/// `vst4q_u8`: appends the four vectors, interleaved.
pub(crate) fn vst4q_u8(out: &mut Vec<u8>, w0: &Vec<u8>, w1: &Vec<u8>, w2: &Vec<u8>, w3: &Vec<u8>)
    requires
        w0@.len() == 16 && w1@.len() == 16 && w2@.len() == 16 && w3@.len() == 16,
    ensures
        final(out)@ == old(out)@ + interleaved(w0@, w1@, w2@, w3@, 16),
{
    let mut i: usize = 0;
    while i < 16
        invariant
            i <= 16,
            w0@.len() == 16 && w1@.len() == 16 && w2@.len() == 16 && w3@.len() == 16,
            out@ == old(out)@ + interleaved(w0@, w1@, w2@, w3@, i as nat),
        decreases 16 - i,
    {
        out.push(w0[i]);
        out.push(w1[i]);
        out.push(w2[i]);
        out.push(w3[i]);
        assert(out@ =~= old(out)@ + interleaved(w0@, w1@, w2@, w3@, (i + 1) as nat));
        i += 1;
    }
}

/// Four vectors whose lane `i` holds the characters of group `g + i` of
/// `input`, interleaved, are the encoding of those groups.
pub(crate) proof fn lemma_interleaved_groups(
    input: Seq<u8>,
    al: Seq<u8>,
    g: nat,
    w0: Seq<u8>,
    w1: Seq<u8>,
    w2: Seq<u8>,
    w3: Seq<u8>,
    n: nat,
)
    requires
        forall|i: int|
            0 <= i < n ==> #[trigger] w0[i] == al[sextet0(input[3 * (g + i)]) as int] && w1[i] == al[sextet1(
                input[3 * (g + i)],
                input[3 * (g + i) + 1],
            ) as int] && w2[i] == al[sextet2(input[3 * (g + i) + 1], input[3 * (g + i) + 2]) as int]
                && w3[i] == al[sextet3(input[3 * (g + i) + 2]) as int],
    ensures
        interleaved(w0, w1, w2, w3, n) == blocks_from(input, al, g, n),
    decreases n,
{
    if n > 0 {
        lemma_interleaved_groups(input, al, g, w0, w1, w2, w3, (n - 1) as nat);
        let i = n - 1;
        assert(w0[i] == w0[i]);
        assert(seq![w0[i], w1[i], w2[i], w3[i]] =~= group(input, al, g + i));
    }
}

/// The reshuffle and the table lookup, lane by lane: lane `i` of result
/// vector `k` is the character of the `k`-th 6-bit value of the group held
/// in lane `i` of the three input vectors.
fn reshuffle_and_lookup(v0: &Vec<u8>, v1: &Vec<u8>, v2: &Vec<u8>, alphabet: &[u8; 64]) -> (r: (
    Vec<u8>,
    Vec<u8>,
    Vec<u8>,
    Vec<u8>,
))
    requires
        v0@.len() == 16 && v1@.len() == 16 && v2@.len() == 16,
    ensures
        r.0@.len() == 16 && r.1@.len() == 16 && r.2@.len() == 16 && r.3@.len() == 16,
        forall|i: int|
            0 <= i < 16 ==> #[trigger] r.0@[i] == alphabet@[sextet0(v0@[i]) as int] && r.1@[i]
                == alphabet@[sextet1(v0@[i], v1@[i]) as int] && r.2@[i] == alphabet@[sextet2(
                v1@[i],
                v2@[i],
            ) as int] && r.3@[i] == alphabet@[sextet3(v2@[i]) as int],
{
    let mut w0: Vec<u8> = Vec::new();
    let mut w1: Vec<u8> = Vec::new();
    let mut w2: Vec<u8> = Vec::new();
    let mut w3: Vec<u8> = Vec::new();
    let mut i: usize = 0;
    while i < 16
        invariant
            i <= 16,
            v0@.len() == 16 && v1@.len() == 16 && v2@.len() == 16,
            w0@.len() == i && w1@.len() == i && w2@.len() == i && w3@.len() == i,
            forall|j: int|
                0 <= j < i ==> #[trigger] w0@[j] == alphabet@[sextet0(v0@[j]) as int] && w1@[j]
                    == alphabet@[sextet1(v0@[j], v1@[j]) as int] && w2@[j] == alphabet@[sextet2(
                    v1@[j],
                    v2@[j],
                ) as int] && w3@[j] == alphabet@[sextet3(v2@[j]) as int],
        decreases 16 - i,
    {
        let (s0, s1, s2, s3) = reshuffle(v0[i], v1[i], v2[i]);
        proof {
            lemma_sextets_bounded(v0@[i as int], v1@[i as int], v2@[i as int]);
        }
        w0.push(vqtbl4q_u8(alphabet, s0));
        w1.push(vqtbl4q_u8(alphabet, s1));
        w2.push(vqtbl4q_u8(alphabet, s2));
        w3.push(vqtbl4q_u8(alphabet, s3));
        i += 1;
    }
    (w0, w1, w2, w3)
}

/// Encodes the sixteen groups of the 48 bytes from group `g` on: the
/// bytes are de-interleaved so that lane `i` of three vectors holds group
/// `g + i`, and the four result vectors are interleaved back.
fn encode_block(input: &[u8], g: usize, out: &mut Vec<u8>, alphabet: &[u8; 64])
    requires
        3 * g + 48 <= input@.len(),
    ensures
        final(out)@ == old(out)@ + blocks_from(input@, alphabet@, g as nat, 16),
{
    let len = input.len();
    assert(3 * g + 48 <= len);
    let base = 3 * g;
    let (v0, v1, v2) = vld3q_u8(input, base);
    let (w0, w1, w2, w3) = reshuffle_and_lookup(&v0, &v1, &v2, alphabet);
    vst4q_u8(out, &w0, &w1, &w2, &w3);
    proof {
        assert forall|i: int| 0 <= i < 16 implies #[trigger] w0@[i] == alphabet@[sextet0(
            input@[3 * (g + i)],
        ) as int] && w1@[i] == alphabet@[sextet1(input@[3 * (g + i)], input@[3 * (g + i) + 1]) as int]
            && w2@[i] == alphabet@[sextet2(input@[3 * (g + i) + 1], input@[3 * (g + i) + 2]) as int]
            && w3@[i] == alphabet@[sextet3(input@[3 * (g + i) + 2]) as int] by {
            assert(3 * (g + i) == base + 3 * i);
            assert(v0@[i] == input@[base + 3 * i]);
            assert(v1@[i] == input@[base + 3 * i + 1]);
            assert(v2@[i] == input@[base + 3 * i + 2]);
            assert(w0@[i] == alphabet@[sextet0(v0@[i]) as int]);
        }
        lemma_interleaved_groups(input@, alphabet@, g as nat, w0@, w1@, w2@, w3@, 16);
    }
}

/// The number of input bytes that the NEON bulk encoder takes: whole
/// rounds of 48 bytes.
pub open spec fn prefix_len(len: nat) -> nat {
    (len / 48 * 48) as nat
}

/// Encodes the longest prefix of `input` that whole rounds of 48 bytes
/// cover with `alphabet`, and returns its length.
pub fn encode_simd_prefix(input: &[u8], out: &mut Vec<u8>, alphabet: &AlphabetTable) -> (consumed:
    usize)
    ensures
        consumed == prefix_len(input@.len()),
        consumed % 3 == 0,
        final(out)@ == old(out)@ + blocks(input@, alphabet.0@, consumed as nat / 3),
{
    let len = input.len();
    let ghost al = alphabet.0@;
    assert(out@ =~= old(out)@ + blocks(input@, al, 0));
    if len < 48 {
        return 0;
    }
    let rounds = len / BYTES_CONSUMED_PER_ROUND;
    let mut round: usize = 0;
    while round < rounds
        invariant
            round <= rounds,
            rounds == len / 48,
            len == input@.len(),
            al == alphabet.0@,
            out@ == old(out)@ + blocks(input@, al, 16 * round as nat),
        decreases rounds - round,
    {
        encode_block(input, 16 * round, out, &alphabet.0);
        proof {
            lemma_blocks_split(input@, al, 16 * round as nat, 16);
        }
        round += 1;
    }
    rounds * BYTES_CONSUMED_PER_ROUND
}

/// Encodes `input` as `python::encode` does, the first part with the
/// NEON (AArch64) bulk encoder.
pub fn encode(input: &[u8], altchars: Option<&[u8]>, padded: bool, wrapcol: isize) -> (result: Result<
    Vec<u8>,
    EncodeError,
>)
    ensures
        outcome(result) == encode_outcome(input@, altchars, padded, wrapcol as int, BulkEncoder::Neon64),
{
    python::encode(input, altchars, padded, wrapcol, BulkEncoder::Neon64)
}

} // verus!
