//! The encoding loses nothing: with an alphabet of 64 distinct characters
//! that does not hold the padding character, different inputs have
//! different encodings.

use vstd::prelude::*;

use crate::encode::alphabet::{standard_alphabet, urlsafe_alphabet};

use crate::model::{
    blocks, encoding, group, lemma_blocks_len, lemma_encoding_len,
    lemma_sextets_bounded, pad_byte, quad, sextet0, sextet1, sextet2, sextet3, tail,
};

verus! {

/// `alphabet` has 64 characters, all different, and `=` is none of them.
pub open spec fn is_base64_alphabet(alphabet: Seq<u8>) -> bool {
    &&& alphabet.len() == 64
    &&& forall|i: int, j: int|
        0 <= i < 64 && 0 <= j < 64 && #[trigger] alphabet[i] == #[trigger] alphabet[j] ==> i == j
    &&& forall|i: int| 0 <= i < 64 ==> #[trigger] alphabet[i] != pad_byte()
}

/// The four 6-bit values of a group give back its three bytes.
proof fn lemma_sextets_determine_group(a: u8, b: u8, c: u8, x: u8, y: u8, z: u8)
    requires
        sextet0(a) == sextet0(x),
        sextet1(a, b) == sextet1(x, y),
        sextet2(b, c) == sextet2(y, z),
        sextet3(c) == sextet3(z),
    ensures
        a == x && b == y && c == z,
{
    assert(a == x && b == y && c == z) by (bit_vector)
        requires
            sextet0(a) == sextet0(x),
            sextet1(a, b) == sextet1(x, y),
            sextet2(b, c) == sextet2(y, z),
            sextet3(c) == sextet3(z),
    ;
}

/// The first two 6-bit values of a lone last byte give it back.
proof fn lemma_sextets_determine_byte(a: u8, x: u8)
    requires
        sextet0(a) == sextet0(x),
        sextet1(a, 0u8) == sextet1(x, 0u8),
    ensures
        a == x,
{
    assert(a == x) by (bit_vector)
        requires
            sextet0(a) == sextet0(x),
            sextet1(a, 0u8) == sextet1(x, 0u8),
    ;
}

/// The first three 6-bit values of two last bytes give them back.
proof fn lemma_sextets_determine_pair(a: u8, b: u8, x: u8, y: u8)
    requires
        sextet0(a) == sextet0(x),
        sextet1(a, b) == sextet1(x, y),
        sextet2(b, 0u8) == sextet2(y, 0u8),
    ensures
        a == x && b == y,
{
    assert(a == x && b == y) by (bit_vector)
        requires
            sextet0(a) == sextet0(x),
            sextet1(a, b) == sextet1(x, y),
            sextet2(b, 0u8) == sextet2(y, 0u8),
    ;
}

/// Character `k` of quad `j` of the blocks.
proof fn lemma_blocks_index(input: Seq<u8>, alphabet: Seq<u8>, g: nat, j: int, k: int)
    requires
        0 <= j < g,
        0 <= k < 4,
    ensures
        blocks(input, alphabet, g)[4 * j + k] == group(input, alphabet, j)[k],
    decreases g,
{
    lemma_blocks_len(input, alphabet, (g - 1) as nat);
    if j < g - 1 {
        lemma_blocks_index(input, alphabet, (g - 1) as nat, j, k);
    }
}

/// The characters of an encoding, quad by quad and in the tail.
proof fn lemma_encoding_index(input: Seq<u8>, alphabet: Seq<u8>, padded: bool, j: int, k: int)
    requires
        0 <= k < 4,
        0 <= j,
    ensures
        j < input.len() / 3 ==> encoding(input, alphabet, padded)[4 * j + k] == group(
            input,
            alphabet,
            j,
        )[k],
        j == input.len() / 3 && k < tail(input, alphabet, padded).len() ==> encoding(
            input,
            alphabet,
            padded,
        )[4 * j + k] == tail(input, alphabet, padded)[k],
{
    lemma_blocks_len(input, alphabet, input.len() / 3);
    if j < input.len() / 3 {
        lemma_blocks_index(input, alphabet, input.len() / 3, j, k);
    }
}

/// Two encodings that are equal come from inputs of the same length.
proof fn lemma_same_length(s1: Seq<u8>, s2: Seq<u8>, alphabet: Seq<u8>, padded: bool)
    requires
        is_base64_alphabet(alphabet),
        encoding(s1, alphabet, padded) == encoding(s2, alphabet, padded),
    ensures
        s1.len() == s2.len(),
{
    let n1 = s1.len();
    let n2 = s2.len();
    lemma_encoding_len(s1, alphabet, padded);
    lemma_encoding_len(s2, alphabet, padded);
    let e = encoding(s1, alphabet, padded);
    if padded && n1 % 3 != n2 % 3 {
        if n1 % 3 == 0 || n2 % 3 == 0 {
            // the full group of one input ends where the padding of the other does
            let (full, short) = if n1 % 3 == 0 {
                (s1, s2)
            } else {
                (s2, s1)
            };
            let q = full.len() as int / 3;
            assert(q >= 1);
            lemma_encoding_index(full, alphabet, padded, q - 1, 3);
            lemma_encoding_index(short, alphabet, padded, short.len() as int / 3, 3);
            let c = full[3 * (q - 1) + 2];
            lemma_sextets_bounded(0u8, 0u8, c);
            assert(alphabet[sextet3(c) as int] != pad_byte());
        } else {
            // one tail pads its third character, the other does not
            let (one, two) = if n1 % 3 == 1 {
                (s1, s2)
            } else {
                (s2, s1)
            };
            let q = one.len() as int / 3;
            lemma_encoding_index(one, alphabet, padded, q, 2);
            lemma_encoding_index(two, alphabet, padded, q, 2);
            let i = two.len() - 2;
            lemma_sextets_bounded(0u8, two[i + 1], 0u8);
            assert(alphabet[sextet2(two[i + 1], 0u8) as int] != pad_byte());
        }
    }
}

/// The lossless law: with an alphabet of 64 distinct characters that does
/// not hold `=`, equal encodings come from equal inputs.
pub proof fn lemma_encoding_lossless(s1: Seq<u8>, s2: Seq<u8>, alphabet: Seq<u8>, padded: bool)
    requires
        is_base64_alphabet(alphabet),
        encoding(s1, alphabet, padded) == encoding(s2, alphabet, padded),
    ensures
        s1 == s2,
{
    lemma_same_length(s1, s2, alphabet, padded);
    let n = s1.len();
    let q = n as int / 3;
    assert forall|i: int| 0 <= i < n implies s1[i] == s2[i] by {
        let j = i / 3;
        if j < q {
            lemma_encoding_index(s1, alphabet, padded, j, 0);
            lemma_encoding_index(s2, alphabet, padded, j, 0);
            lemma_encoding_index(s1, alphabet, padded, j, 1);
            lemma_encoding_index(s2, alphabet, padded, j, 1);
            lemma_encoding_index(s1, alphabet, padded, j, 2);
            lemma_encoding_index(s2, alphabet, padded, j, 2);
            lemma_encoding_index(s1, alphabet, padded, j, 3);
            lemma_encoding_index(s2, alphabet, padded, j, 3);
            let p = 3 * j;
            lemma_sextets_bounded(s1[p], s1[p + 1], s1[p + 2]);
            lemma_sextets_bounded(s2[p], s2[p + 1], s2[p + 2]);
            lemma_sextets_determine_group(s1[p], s1[p + 1], s1[p + 2], s2[p], s2[p + 1], s2[p + 2]);
        } else {
            let p = 3 * q;
            lemma_encoding_index(s1, alphabet, padded, q, 0);
            lemma_encoding_index(s2, alphabet, padded, q, 0);
            lemma_encoding_index(s1, alphabet, padded, q, 1);
            lemma_encoding_index(s2, alphabet, padded, q, 1);
            if n % 3 == 1 {
                lemma_sextets_bounded(s1[p], 0u8, 0u8);
                lemma_sextets_bounded(s2[p], 0u8, 0u8);
                lemma_sextets_determine_byte(s1[p], s2[p]);
            } else {
                lemma_encoding_index(s1, alphabet, padded, q, 2);
                lemma_encoding_index(s2, alphabet, padded, q, 2);
                lemma_sextets_bounded(s1[p], s1[p + 1], 0u8);
                lemma_sextets_bounded(s2[p], s2[p + 1], 0u8);
                lemma_sextets_determine_pair(s1[p], s1[p + 1], s2[p], s2[p + 1]);
            }
        }
    }
    assert(s1 =~= s2);
}

/// Both alphabets of the library are base64 alphabets, so both encode
/// without loss.
pub proof fn lemma_named_alphabets_lossless()
    ensures
        is_base64_alphabet(standard_alphabet()),
        is_base64_alphabet(urlsafe_alphabet()),
{
    let s = standard_alphabet();
    let u = urlsafe_alphabet();
    assert forall|i: int, j: int| 0 <= i < 64 && 0 <= j < 64 && #[trigger] s[i] == #[trigger] s[j] implies i == j by {}
    assert forall|i: int, j: int| 0 <= i < 64 && 0 <= j < 64 && #[trigger] u[i] == #[trigger] u[j] implies i == j by {}
}

} // verus!
