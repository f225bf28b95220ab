//! The portable encoder: one group of three bytes at a time, or two
//! groups at a time through a table of character pairs.

use vstd::prelude::*;

use crate::encode::python::{self, BulkEncoder, EncodeError, encode_outcome, outcome};

use crate::encode::alphabet::{Alphabet, AlphabetTable, standard_alphabet, urlsafe_alphabet};
use crate::model::{
    blocks, blocks_from, encoding, encoding_len, group, lemma_blocks_len, lemma_encoding_len,
    lemma_wrapped_append_new_line, lemma_wrapped_append_same_line, lemma_wrapped_len,
    line_width, newline_byte, pad_byte, quad, sextet0, sextet1, sextet2, sextet3, tail, wrapped,
    wrapped_len,
};

verus! {

/// A pair-table entry: `first` in the low byte, `second` in the high one,
/// which is what `u16::from_ne_bytes([first, second])` gives on a
/// little-endian target; stored low byte first, the entry reads as the two
/// characters in order.
pub open spec fn pair_value(first: u8, second: u8) -> u16 {
    (first as u16) | ((second as u16) << 8u16)
}

proof fn lemma_pair_bytes(first: u8, second: u8)
    ensures
        (pair_value(first, second) & 0xffu16) as u8 == first,
        (pair_value(first, second) >> 8u16) as u8 == second,
{
    assert(((first as u16) | ((second as u16) << 8u16)) & 0xffu16 == first as u16) by (bit_vector);
    assert(((first as u16) | ((second as u16) << 8u16)) >> 8u16 == second as u16) by (bit_vector);
}

/// The four 6-bit values of the group `a b c`, read from the 24-bit word
/// that holds the group, and the two 12-bit halves of that word.
proof fn lemma_triplet_bits(a: u8, b: u8, c: u8)
    ensures
        ({
            let bits = ((a as u32) << 16u32) | ((b as u32) << 8u32) | (c as u32);
            &&& (bits >> 18u32) & 0x3fu32 == sextet0(a) as u32
            &&& (bits >> 12u32) & 0x3fu32 == sextet1(a, b) as u32
            &&& (bits >> 6u32) & 0x3fu32 == sextet2(b, c) as u32
            &&& bits & 0x3fu32 == sextet3(c) as u32
            &&& bits >> 12u32 < 4096
            &&& (bits >> 12u32) / 64 == sextet0(a) as u32
            &&& (bits >> 12u32) % 64 == sextet1(a, b) as u32
            &&& bits & 0x0fffu32 < 4096
            &&& (bits & 0x0fffu32) / 64 == sextet2(b, c) as u32
            &&& (bits & 0x0fffu32) % 64 == sextet3(c) as u32
        }),
{
    let bits = ((a as u32) << 16u32) | ((b as u32) << 8u32) | (c as u32);
    assert((bits >> 18u32) & 0x3fu32 == sextet0(a) as u32) by (bit_vector)
        requires
            bits == ((a as u32) << 16u32) | ((b as u32) << 8u32) | (c as u32),
    ;
    assert((bits >> 12u32) & 0x3fu32 == sextet1(a, b) as u32) by (bit_vector)
        requires
            bits == ((a as u32) << 16u32) | ((b as u32) << 8u32) | (c as u32),
    ;
    assert((bits >> 6u32) & 0x3fu32 == sextet2(b, c) as u32) by (bit_vector)
        requires
            bits == ((a as u32) << 16u32) | ((b as u32) << 8u32) | (c as u32),
    ;
    assert(bits & 0x3fu32 == sextet3(c) as u32) by (bit_vector)
        requires
            bits == ((a as u32) << 16u32) | ((b as u32) << 8u32) | (c as u32),
    ;
    assert(bits >> 12u32 < 4096 && (bits >> 12u32) / 64 == sextet0(a) as u32 && (bits >> 12u32)
        % 64 == sextet1(a, b) as u32) by (bit_vector)
        requires
            bits == ((a as u32) << 16u32) | ((b as u32) << 8u32) | (c as u32),
    ;
    assert(bits & 0x0fffu32 < 4096 && (bits & 0x0fffu32) / 64 == sextet2(b, c) as u32 && (bits
        & 0x0fffu32) % 64 == sextet3(c) as u32) by (bit_vector)
        requires
            bits == ((a as u32) << 16u32) | ((b as u32) << 8u32) | (c as u32),
    ;
}

/// A table of 4096 character pairs: entry `i` holds the two characters
/// that encode the 12-bit value `i`, that is the 6-bit values `i / 64`
/// and `i % 64`.
pub struct PairTable {
    entries: Vec<u16>,
    chars: Ghost<Seq<u8>>,
}

impl PairTable {
    /// The entries of the table.
    pub closed spec fn entries(&self) -> Seq<u16> {
        self.entries@
    }

    /// The alphabet whose pairs the table holds.
    pub closed spec fn chars(&self) -> Seq<u8> {
        self.chars@
    }

    /// Every table holds the pairs of its alphabet.
    #[verifier::type_invariant]
    spec fn holds_pairs_of_chars(self) -> bool {
        self.encodes(self.chars@)
    }

    /// The table holds the pairs of `alphabet`.
    pub open spec fn encodes(&self, alphabet: Seq<u8>) -> bool {
        &&& self.entries().len() == 4096
        &&& forall|i: int|
            0 <= i < 4096 ==> #[trigger] self.entries()[i] == pair_value(
                alphabet[i / 64],
                alphabet[i % 64],
            )
    }

    /// Entry `index` of the table.
    pub fn entry(&self, index: usize) -> (entry: u16)
        requires
            index < self.entries().len(),
        ensures
            entry == self.entries()[index as int],
    {
        self.entries[index]
    }

    /// Appends the two characters of the 12-bit value `index`.
    fn push_pair(&self, index: usize, out: &mut Vec<u8>, Ghost(alphabet): Ghost<Seq<u8>>)
        requires
            alphabet == self.chars(),
            index < 4096,
        ensures
            final(out)@ == old(out)@ + seq![
                alphabet[index as int / 64],
                alphabet[index as int % 64],
            ],
    {
        proof {
            use_type_invariant(self);
        }
        let entry = self.entries[index];
        proof {
            lemma_pair_bytes(alphabet[index as int / 64], alphabet[index as int % 64]);
        }
        out.push((entry & 0xffu16) as u8);
        out.push((entry >> 8u16) as u8);
        assert(out@ =~= old(out)@ + seq![alphabet[index as int / 64], alphabet[index as int % 64]]);
    }
}

/// The pair table of `alphabet`.
pub fn encode_pairs(alphabet: &[u8; 64]) -> (table: PairTable)
    ensures
        table.chars() == alphabet@,
        table.encodes(alphabet@),
{
    let mut buf: Vec<u16> = Vec::with_capacity(4096);
    let mut index: usize = 0;
    while index < 4096
        invariant
            index <= 4096,
            buf@.len() == index,
            forall|i: int|
                0 <= i < index ==> #[trigger] buf@[i] == pair_value(alphabet@[i / 64], alphabet@[i % 64]),
        decreases 4096 - index,
    {
        let high = index >> 6usize;
        let low = index & 0x3fusize;
        assert(high == index / 64 && low == index % 64) by (bit_vector)
            requires
                high == index >> 6usize,
                low == index & 0x3fusize,
        ;
        buf.push((alphabet[high] as u16) | ((alphabet[low] as u16) << 8u16));
        index += 1;
    }
    PairTable { entries: buf, chars: Ghost(alphabet@) }
}

/// The 24-bit word that holds the group `a b c`, `a` in the top byte.
pub open spec fn triplet_word(a: u8, b: u8, c: u8) -> u32 {
    ((a as u32) << 16u32) | ((b as u32) << 8u32) | (c as u32)
}

/// The four characters that two lookups in the pair-table entries
/// `entries` give for the group `a b c`: the entries of the word's top and
/// bottom twelve bits, each low byte first.
pub open spec fn pair_quad(entries: Seq<u16>, a: u8, b: u8, c: u8) -> Seq<u8> {
    let high = entries[(triplet_word(a, b, c) >> 12u32) as int];
    let low = entries[(triplet_word(a, b, c) & 0x0fffu32) as int];
    seq![(high & 0xffu16) as u8, (high >> 8u16) as u8, (low & 0xffu16) as u8, (low >> 8u16) as u8]
}

/// A group encoded two characters at a time through the pair table of
/// `alphabet` reads the same as the group encoded one character at a time
/// through `alphabet` itself.
pub proof fn lemma_pair_quad(table: &PairTable, alphabet: Seq<u8>, a: u8, b: u8, c: u8)
    requires
        table.encodes(alphabet),
    ensures
        pair_quad(table.entries(), a, b, c) == quad(alphabet, a, b, c),
{
    lemma_triplet_bits(a, b, c);
    let bits = triplet_word(a, b, c);
    let hi = (bits >> 12u32) as int;
    let lo = (bits & 0x0fffu32) as int;
    assert(table.entries()[hi] == pair_value(alphabet[hi / 64], alphabet[hi % 64]));
    assert(table.entries()[lo] == pair_value(alphabet[lo / 64], alphabet[lo % 64]));
    lemma_pair_bytes(alphabet[hi / 64], alphabet[hi % 64]);
    lemma_pair_bytes(alphabet[lo / 64], alphabet[lo % 64]);
    assert(pair_quad(table.entries(), a, b, c) =~= quad(alphabet, a, b, c));
}

/// Appends the four characters of the group of three bytes at `pos`.
fn encode_triplet(input: &[u8], pos: usize, out: &mut Vec<u8>, alphabet: &[u8; 64])
    requires
        pos + 3 <= input@.len(),
    ensures
        final(out)@ == old(out)@ + quad(alphabet@, input@[pos as int], input@[pos + 1], input@[pos + 2]),
{
    let bits = ((input[pos] as u32) << 16u32) | ((input[pos + 1] as u32) << 8u32) | (
    input[pos + 2] as u32);
    proof {
        lemma_triplet_bits(input@[pos as int], input@[pos + 1], input@[pos + 2]);
    }
    out.push(alphabet[((bits >> 18u32) & 0x3fu32) as usize]);
    out.push(alphabet[((bits >> 12u32) & 0x3fu32) as usize]);
    out.push(alphabet[((bits >> 6u32) & 0x3fu32) as usize]);
    out.push(alphabet[(bits & 0x3fu32) as usize]);
    assert(out@ =~= old(out)@ + quad(alphabet@, input@[pos as int], input@[pos + 1], input@[pos + 2]));
}

/// Appends the four characters of the group of three bytes at `pos`, two
/// at a time from the pair table of `alphabet`.
fn encode_triplet_pairs(
    input: &[u8],
    pos: usize,
    out: &mut Vec<u8>,
    pairs: &PairTable,
    Ghost(alphabet): Ghost<Seq<u8>>,
)
    requires
        pos + 3 <= input@.len(),
        alphabet == pairs.chars(),
    ensures
        final(out)@ == old(out)@ + pair_quad(
            pairs.entries(),
            input@[pos as int],
            input@[pos + 1],
            input@[pos + 2],
        ),
        final(out)@ == old(out)@ + quad(alphabet, input@[pos as int], input@[pos + 1], input@[pos + 2]),
{
    proof {
        use_type_invariant(pairs);
        lemma_pair_quad(pairs, alphabet, input@[pos as int], input@[pos + 1], input@[pos + 2]);
    }
    let bits = ((input[pos] as u32) << 16u32) | ((input[pos + 1] as u32) << 8u32) | (
    input[pos + 2] as u32);
    proof {
        lemma_triplet_bits(input@[pos as int], input@[pos + 1], input@[pos + 2]);
    }
    pairs.push_pair((bits >> 12u32) as usize, out, Ghost(alphabet));
    pairs.push_pair((bits & 0x0fffu32) as usize, out, Ghost(alphabet));
    assert(out@ =~= old(out)@ + quad(alphabet, input@[pos as int], input@[pos + 1], input@[pos + 2]));
}

/// The 12-bit values of the two groups held in the top six bytes of the
/// big-endian word `src`.
proof fn lemma_word_bits(src: u64, b0: u8, b1: u8, b2: u8, b3: u8, b4: u8, b5: u8, b6: u8, b7: u8)
    requires
        src == ((b0 as u64) << 56u64) | ((b1 as u64) << 48u64) | ((b2 as u64) << 40u64) | ((
        b3 as u64) << 32u64) | ((b4 as u64) << 24u64) | ((b5 as u64) << 16u64) | ((b6 as u64)
            << 8u64) | (b7 as u64),
    ensures
        (src >> 52u64) & 0x0fffu64 < 4096,
        ((src >> 52u64) & 0x0fffu64) / 64 == sextet0(b0) as u64,
        ((src >> 52u64) & 0x0fffu64) % 64 == sextet1(b0, b1) as u64,
        (src >> 40u64) & 0x0fffu64 < 4096,
        ((src >> 40u64) & 0x0fffu64) / 64 == sextet2(b1, b2) as u64,
        ((src >> 40u64) & 0x0fffu64) % 64 == sextet3(b2) as u64,
        (src >> 28u64) & 0x0fffu64 < 4096,
        ((src >> 28u64) & 0x0fffu64) / 64 == sextet0(b3) as u64,
        ((src >> 28u64) & 0x0fffu64) % 64 == sextet1(b3, b4) as u64,
        (src >> 16u64) & 0x0fffu64 < 4096,
        ((src >> 16u64) & 0x0fffu64) / 64 == sextet2(b4, b5) as u64,
        ((src >> 16u64) & 0x0fffu64) % 64 == sextet3(b5) as u64,
{
    assert((src >> 52u64) & 0x0fffu64 < 4096 && ((src >> 52u64) & 0x0fffu64) / 64 == sextet0(b0) as u64
        && ((src >> 52u64) & 0x0fffu64) % 64 == sextet1(b0, b1) as u64) by (bit_vector)
        requires
            src == ((b0 as u64) << 56u64) | ((b1 as u64) << 48u64) | ((b2 as u64) << 40u64) | ((
            b3 as u64) << 32u64) | ((b4 as u64) << 24u64) | ((b5 as u64) << 16u64) | ((
            b6 as u64) << 8u64) | (b7 as u64),
    ;
    assert((src >> 40u64) & 0x0fffu64 < 4096 && ((src >> 40u64) & 0x0fffu64) / 64 == sextet2(b1, b2) as u64
        && ((src >> 40u64) & 0x0fffu64) % 64 == sextet3(b2) as u64) by (bit_vector)
        requires
            src == ((b0 as u64) << 56u64) | ((b1 as u64) << 48u64) | ((b2 as u64) << 40u64) | ((
            b3 as u64) << 32u64) | ((b4 as u64) << 24u64) | ((b5 as u64) << 16u64) | ((
            b6 as u64) << 8u64) | (b7 as u64),
    ;
    assert((src >> 28u64) & 0x0fffu64 < 4096 && ((src >> 28u64) & 0x0fffu64) / 64 == sextet0(b3) as u64
        && ((src >> 28u64) & 0x0fffu64) % 64 == sextet1(b3, b4) as u64) by (bit_vector)
        requires
            src == ((b0 as u64) << 56u64) | ((b1 as u64) << 48u64) | ((b2 as u64) << 40u64) | ((
            b3 as u64) << 32u64) | ((b4 as u64) << 24u64) | ((b5 as u64) << 16u64) | ((
            b6 as u64) << 8u64) | (b7 as u64),
    ;
    assert((src >> 16u64) & 0x0fffu64 < 4096 && ((src >> 16u64) & 0x0fffu64) / 64 == sextet2(b4, b5) as u64
        && ((src >> 16u64) & 0x0fffu64) % 64 == sextet3(b5) as u64) by (bit_vector)
        requires
            src == ((b0 as u64) << 56u64) | ((b1 as u64) << 48u64) | ((b2 as u64) << 40u64) | ((
            b3 as u64) << 32u64) | ((b4 as u64) << 24u64) | ((b5 as u64) << 16u64) | ((
            b6 as u64) << 8u64) | (b7 as u64),
    ;
}

/// Appends the eight characters of the two groups at `pos`: the eight
/// bytes from `pos` are read as one big-endian word, and its top 48 bits
/// give four 12-bit pair-table indices.
fn enc_loop_generic_64_inner(
    input: &[u8],
    pos: usize,
    out: &mut Vec<u8>,
    table: &PairTable,
    Ghost(alphabet): Ghost<Seq<u8>>,
)
    requires
        pos + 8 <= input@.len(),
        alphabet == table.chars(),
    ensures
        final(out)@ == old(out)@ + quad(alphabet, input@[pos as int], input@[pos + 1], input@[pos + 2])
            + quad(alphabet, input@[pos + 3], input@[pos + 4], input@[pos + 5]),
{
    let src = ((input[pos] as u64) << 56u64) | ((input[pos + 1] as u64) << 48u64) | ((input[pos
        + 2] as u64) << 40u64) | ((input[pos + 3] as u64) << 32u64) | ((input[pos + 4] as u64)
        << 24u64) | ((input[pos + 5] as u64) << 16u64) | ((input[pos + 6] as u64) << 8u64) | (
    input[pos + 7] as u64);
    proof {
        lemma_word_bits(
            src,
            input@[pos as int],
            input@[pos + 1],
            input@[pos + 2],
            input@[pos + 3],
            input@[pos + 4],
            input@[pos + 5],
            input@[pos + 6],
            input@[pos + 7],
        );
    }
    let index0 = ((src >> 52u64) & 0x0fffu64) as usize;
    let index1 = ((src >> 40u64) & 0x0fffu64) as usize;
    let index2 = ((src >> 28u64) & 0x0fffu64) as usize;
    let index3 = ((src >> 16u64) & 0x0fffu64) as usize;
    table.push_pair(index0, out, Ghost(alphabet));
    table.push_pair(index1, out, Ghost(alphabet));
    table.push_pair(index2, out, Ghost(alphabet));
    table.push_pair(index3, out, Ghost(alphabet));
    assert(out@ =~= old(out)@ + quad(alphabet, input@[pos as int], input@[pos + 1], input@[pos + 2])
        + quad(alphabet, input@[pos + 3], input@[pos + 4], input@[pos + 5]));
}

/// `alphabet` ends in the characters `c62` and `c63`.
pub open spec fn has_suffix(alphabet: Seq<u8>, c62: u8, c63: u8) -> bool {
    alphabet[62] == c62 && alphabet[63] == c63
}

/// The alphabet whose pair table the portable bulk encoder uses for
/// `alphabet`: the built-in table when the last two characters are `+/`
/// or `-_`, a table built from `alphabet` otherwise.
pub open spec fn pair_alphabet(alphabet: Seq<u8>) -> Seq<u8> {
    if has_suffix(alphabet, 43u8, 47u8) {
        standard_alphabet()
    } else if has_suffix(alphabet, 45u8, 95u8) {
        urlsafe_alphabet()
    } else {
        alphabet
    }
}

/// The number of input bytes that the portable bulk encoder takes: rounds
/// of six bytes, leaving at least two bytes after the last round, and none
/// for inputs under eight bytes or, with an alphabet of its own, under
/// 32 KiB.
pub open spec fn prefix_len(len: nat, alphabet: Seq<u8>) -> nat {
    if (!has_suffix(alphabet, 43u8, 47u8) && !has_suffix(alphabet, 45u8, 95u8) && len < 32768)
        || len < 8 {
        0
    } else {
        ((len - 2) / 6 * 6) as nat
    }
}

/// Encodes the longest prefix of `input` that the pair-table loop takes
/// (see `prefix_len`) and returns its length; the rest is left to
/// `encode_into`.
pub fn encode_simd_prefix(input: &[u8], out: &mut Vec<u8>, alphabet: &AlphabetTable) -> (consumed:
    usize)
    ensures
        consumed == prefix_len(input@.len(), alphabet.0@),
        consumed % 3 == 0,
        final(out)@ == old(out)@ + blocks(input@, pair_alphabet(alphabet.0@), consumed as nat / 3),
{
    let len = input.len();
    let c62 = alphabet.0[62];
    let c63 = alphabet.0[63];
    let standard = c62 == 43u8 && c63 == 47u8;
    let urlsafe = c62 == 45u8 && c63 == 95u8;
    if !standard && !urlsafe && len < 32 * 1024 {
        assert(out@ =~= old(out)@ + blocks(input@, pair_alphabet(alphabet.0@), 0));
        return 0;
    }
    let table = if standard {
        encode_pairs(Alphabet::Standard.as_bytes())
    } else if urlsafe {
        encode_pairs(Alphabet::UrlSafe.as_bytes())
    } else {
        encode_pairs(&alphabet.0)
    };
    if len < 8 {
        assert(out@ =~= old(out)@ + blocks(input@, pair_alphabet(alphabet.0@), 0));
        return 0;
    }
    let ghost pairs_of = pair_alphabet(alphabet.0@);
    let total = (len - 2) / 6;
    let consumed = total * 6;
    let mut rounds = total;
    let mut done: usize = 0;
    while rounds > 0
        invariant
            done + rounds == total,
            total == (len - 2) / 6,
            len == input@.len(),
            table.chars() == pairs_of,
            out@ == old(out)@ + blocks(input@, pairs_of, 2 * done as nat),
        decreases rounds,
    {
        // eight, four, two or one rounds at a time
        let step: usize = if rounds >= 8 {
            8
        } else if rounds >= 4 {
            4
        } else if rounds >= 2 {
            2
        } else {
            1
        };
        encode_rounds(input, done, step, out, &table, Ghost(pairs_of));
        proof {
            crate::model::lemma_blocks_split(input@, pairs_of, 2 * done as nat, 2 * step as nat);
        }
        rounds -= step;
        done += step;
    }
    consumed
}

/// Runs `count` rounds of the pair-table loop from round `first` on: round
/// `r` encodes the two groups of the six bytes from `6 * r` on.
fn encode_rounds(
    input: &[u8],
    first: usize,
    count: usize,
    out: &mut Vec<u8>,
    table: &PairTable,
    Ghost(alphabet): Ghost<Seq<u8>>,
)
    requires
        6 * (first + count) + 2 <= input@.len(),
        alphabet == table.chars(),
    ensures
        final(out)@ == old(out)@ + blocks_from(input@, alphabet, 2 * first as nat, 2 * count as nat),
{
    let len = input.len();
    let mut round: usize = 0;
    while round < count
        invariant
            round <= count,
            len == input@.len(),
            6 * (first + count) + 2 <= input@.len(),
            alphabet == table.chars(),
            out@ == old(out)@ + blocks_from(input@, alphabet, 2 * first as nat, 2 * round as nat),
        decreases count - round,
    {
        let pos = (first + round) * 6;
        enc_loop_generic_64_inner(input, pos, out, table, Ghost(alphabet));
        proof {
            let g = 2 * round as nat;
            let start = 2 * first as nat;
            assert(blocks_from(input@, alphabet, start, g + 1) == blocks_from(input@, alphabet, start, g)
                + group(input@, alphabet, (start + g) as int));
            assert(blocks_from(input@, alphabet, start, g + 2) == blocks_from(input@, alphabet, start, g + 1)
                + group(input@, alphabet, (start + g + 1) as int));
            assert(out@ =~= old(out)@ + blocks_from(input@, alphabet, start, g + 2));
        }
        round += 1;
    }
}

/// Starts a new line when the current one holds `wrapcol` characters.
fn begin_wrapped_quad(out: &mut Vec<u8>, column: &mut usize, wrapcol: usize)
    ensures
        *old(column) == wrapcol ==> final(out)@ == old(out)@.push(newline_byte()) && *final(column)
            == 0,
        *old(column) != wrapcol ==> final(out)@ == old(out)@ && *final(column) == *old(column),
{
    if *column == wrapcol {
        out.push(10u8);
        *column = 0;
    }
}

/// Appends the encoding of the single byte at `pos` that ends the input,
/// and returns how many characters that is.
fn encode_tail(input: &[u8], pos: usize, out: &mut Vec<u8>, alphabet: &[u8; 64], padded: u8) -> (written:
    usize)
    requires
        pos + 1 <= input@.len(),
    ensures
        final(out)@ == old(out)@ + seq![
            alphabet@[sextet0(input@[pos as int]) as int],
            alphabet@[sextet1(input@[pos as int], 0u8) as int],
        ] + if padded != 0 {
            seq![pad_byte(), pad_byte()]
        } else {
            seq![]
        },
        written == if padded != 0 {
            4usize
        } else {
            2usize
        },
{
    let bits = (input[pos] as u32) << 16u32;
    proof {
        let a = input@[pos as int];
        lemma_triplet_bits(a, 0u8, 0u8);
        assert(bits == ((a as u32) << 16u32) | ((0u8 as u32) << 8u32) | (0u8 as u32)) by (bit_vector)
            requires
                bits == (a as u32) << 16u32,
        ;
    }
    out.push(alphabet[((bits >> 18u32) & 0x3fu32) as usize]);
    out.push(alphabet[((bits >> 12u32) & 0x3fu32) as usize]);
    if padded != 0 {
        out.push(61u8);
        out.push(61u8);
        assert(out@ =~= old(out)@ + seq![
            alphabet@[sextet0(input@[pos as int]) as int],
            alphabet@[sextet1(input@[pos as int], 0u8) as int],
        ] + seq![pad_byte(), pad_byte()]);
        4
    } else {
        assert(out@ =~= old(out)@ + seq![
            alphabet@[sextet0(input@[pos as int]) as int],
            alphabet@[sextet1(input@[pos as int], 0u8) as int],
        ] + seq![]);
        2
    }
}

/// Appends the encoding of the two bytes at `pos` that end the input, and
/// returns how many characters that is.
fn encode_tail2(input: &[u8], pos: usize, out: &mut Vec<u8>, alphabet: &[u8; 64], padded: u8) -> (written:
    usize)
    requires
        pos + 2 <= input@.len(),
    ensures
        final(out)@ == old(out)@ + seq![
            alphabet@[sextet0(input@[pos as int]) as int],
            alphabet@[sextet1(input@[pos as int], input@[pos + 1]) as int],
            alphabet@[sextet2(input@[pos + 1], 0u8) as int],
        ] + if padded != 0 {
            seq![pad_byte()]
        } else {
            seq![]
        },
        written == if padded != 0 {
            4usize
        } else {
            3usize
        },
{
    let bits = ((input[pos] as u32) << 16u32) | ((input[pos + 1] as u32) << 8u32);
    proof {
        lemma_triplet_bits(input@[pos as int], input@[pos + 1], 0u8);
        let a = input@[pos as int];
        let b = input@[pos + 1];
        assert(bits == ((a as u32) << 16u32) | ((b as u32) << 8u32) | (0u8 as u32)) by (bit_vector)
            requires
                bits == ((a as u32) << 16u32) | ((b as u32) << 8u32),
        ;
    }
    out.push(alphabet[((bits >> 18u32) & 0x3fu32) as usize]);
    out.push(alphabet[((bits >> 12u32) & 0x3fu32) as usize]);
    out.push(alphabet[((bits >> 6u32) & 0x3fu32) as usize]);
    if padded != 0 {
        out.push(61u8);
        assert(out@ =~= old(out)@ + seq![
            alphabet@[sextet0(input@[pos as int]) as int],
            alphabet@[sextet1(input@[pos as int], input@[pos + 1]) as int],
            alphabet@[sextet2(input@[pos + 1], 0u8) as int],
        ] + seq![pad_byte()]);
        4
    } else {
        assert(out@ =~= old(out)@ + seq![
            alphabet@[sextet0(input@[pos as int]) as int],
            alphabet@[sextet1(input@[pos as int], input@[pos + 1]) as int],
            alphabet@[sextet2(input@[pos + 1], 0u8) as int],
        ] + seq![]);
        3
    }
}

/// How `wrapped` grows when `extra` (at most a quad) is appended to a
/// text of `lines` full lines and `column` more characters.
proof fn lemma_wrap_next(text: Seq<u8>, extra: Seq<u8>, width: nat, lines: nat, column: nat)
    requires
        width > 0,
        width % 4 == 0,
        column <= width,
        column % 4 == 0,
        text.len() == lines * width + column,
        text.len() == 0 <==> column == 0,
        0 < extra.len() <= 4,
    ensures
        column == width ==> wrapped(text + extra, width) == wrapped(text, width) + seq![
            newline_byte(),
        ] + extra,
        column != width ==> column + 4 <= width && wrapped(text + extra, width) == wrapped(
            text,
            width,
        ) + extra,
{
    if column == width {
        assert((lines + 1) * width == lines * width + width) by (nonlinear_arith);
        vstd::arithmetic::div_mod::lemma_fundamental_div_mod_converse(
            text.len() as int,
            width as int,
            lines + 1 as int,
            0,
        );
        lemma_wrapped_append_new_line(text, extra, width);
    } else if text.len() == 0 {
        lemma_wrapped_append_same_line(text, extra, width);
    } else {
        vstd::arithmetic::div_mod::lemma_fundamental_div_mod_converse(
            text.len() as int,
            width as int,
            lines as int,
            column as int,
        );
        lemma_wrapped_append_same_line(text, extra, width);
    }
}

/// The alphabet that `encode_into` encodes the complete groups with: that
/// of the pair table when one is given.
pub open spec fn groups_alphabet(alphabet: Seq<u8>, pair_table: Option<&PairTable>) -> Seq<u8> {
    match pair_table {
        Some(table) => table.chars(),
        None => alphabet,
    }
}

/// The text that `encode_into` writes before wrapping: the complete groups
/// encoded with `groups`, the last one or two bytes with `alphabet`.
pub open spec fn encoded_text(input: Seq<u8>, groups: Seq<u8>, alphabet: Seq<u8>, padded: bool) -> Seq<u8> {
    blocks(input, groups, input.len() / 3) + tail(input, alphabet, padded)
}

/// Encodes the complete groups of `input` with the alphabet of
/// `groups_alphabet(alphabet, pair_table)`, starting a new line whenever
/// the current one holds `wrap` characters, and returns the number of
/// characters on the last line together with the number of full lines
/// before it.
fn encode_groups(
    input: &[u8],
    out: &mut Vec<u8>,
    alphabet: &[u8; 64],
    wrap: usize,
    pair_table: Option<&PairTable>,
    Ghost(width): Ghost<nat>,
) -> (r: (usize, Ghost<nat>))
    requires
        width == 0 ==> wrap == usize::MAX,
        width > 0 ==> wrap == width && width % 4 == 0,
        4 * (input@.len() / 3) <= usize::MAX,
    ensures
        final(out)@ == old(out)@ + wrapped(
            blocks(input@, groups_alphabet(alphabet@, pair_table), input@.len() / 3),
            width,
        ),
        width == 0 ==> r.0 == 4 * (input@.len() / 3),
        width > 0 ==> r.0 <= width,
        width > 0 ==> r.0 % 4 == 0,
        width > 0 ==> 4 * (input@.len() / 3) == r.1@ * width + r.0,
        width > 0 ==> (input@.len() / 3 == 0 <==> r.0 == 0),
{
    let ghost ga = groups_alphabet(alphabet@, pair_table);
    let input_len = input.len();
    let end = input_len - input_len % 3;
    let mut cursor: usize = 0;
    let mut column: usize = 0;
    let ghost mut g: nat = 0;
    let ghost mut lines: nat = 0;
    assert(blocks(input@, ga, 0) =~= seq![]);
    while cursor < end
        invariant
            cursor == 3 * g,
            cursor <= end,
            input_len == input@.len(),
            end == input_len - input_len % 3,
            4 * (input_len / 3) <= usize::MAX,
            width == 0 ==> wrap == usize::MAX && column == 4 * g,
            width > 0 ==> wrap == width,
            width > 0 ==> width % 4 == 0,
            width > 0 ==> column <= width,
            width > 0 ==> column % 4 == 0,
            width > 0 ==> 4 * g == lines * width + column,
            width > 0 ==> (g == 0 <==> column == 0),
            out@ == old(out)@ + wrapped(blocks(input@, ga, g), width),
            ga == groups_alphabet(alphabet@, pair_table),
        decreases end - cursor,
    {
        let ghost text = blocks(input@, ga, g);
        let ghost extra = group(input@, ga, g as int);
        proof {
            lemma_blocks_len(input@, ga, g);
            assert(blocks(input@, ga, g + 1) == text + extra);
            if width > 0 {
                lemma_wrap_next(text, extra, width, lines, column as nat);
            } else {
                assert(usize::MAX % 4 == 3);
            }
        }
        let ghost line_full = column == wrap;
        begin_wrapped_quad(out, &mut column, wrap);
        match pair_table {
            Some(table) => encode_triplet_pairs(input, cursor, out, table, Ghost(ga)),
            None => encode_triplet(input, cursor, out, alphabet),
        }
        proof {
            if width > 0 && line_full {
                assert((lines + 1) * width == lines * width + width) by (nonlinear_arith);
                lines = lines + 1;
            }
            g = g + 1;
            assert(out@ =~= old(out)@ + wrapped(blocks(input@, ga, g), width));
        }
        cursor += 3;
        column += 4;
    }
    (column, Ghost(lines))
}

/// Appends the encoding of the one or two bytes after the last complete
/// group of `input` to a wrapped `text` that `out` ends with.
fn encode_last(
    input: &[u8],
    out: &mut Vec<u8>,
    alphabet: &[u8; 64],
    padded: u8,
    column: usize,
    wrap: usize,
    Ghost(width): Ghost<nat>,
    Ghost(lines): Ghost<nat>,
    Ghost(text): Ghost<Seq<u8>>,
    Ghost(prefix): Ghost<Seq<u8>>,
)
    requires
        old(out)@ == prefix + wrapped(text, width),
        text.len() == 4 * (input@.len() / 3),
        width == 0 ==> wrap == usize::MAX && column == text.len(),
        width > 0 ==> wrap == width && width % 4 == 0 && column <= width && column % 4 == 0,
        width > 0 ==> text.len() == lines * width + column,
        width > 0 ==> (text.len() == 0 <==> column == 0),
    ensures
        final(out)@ == prefix + wrapped(text + tail(input@, alphabet@, padded != 0), width),
{
    let ghost rest = tail(input@, alphabet@, padded != 0);
    let input_len = input.len();
    let cursor = input_len - input_len % 3;
    let remainder = input_len % 3;
    let mut column = column;
    if remainder == 0 {
        assert(text + rest =~= text);
        return;
    }
    proof {
        if width > 0 {
            lemma_wrap_next(text, rest, width, lines, column as nat);
        } else {
            assert(usize::MAX % 4 == 3);
        }
    }
    begin_wrapped_quad(out, &mut column, wrap);
    if remainder == 1 {
        encode_tail(input, cursor, out, alphabet, padded);
    } else {
        encode_tail2(input, cursor, out, alphabet, padded);
    }
    assert(out@ =~= prefix + wrapped(text + rest, width));
}

/// Encodes all of `input` with `alphabet`, the complete groups through
/// `pair_table` when one is given, padded with `=` when `padded` is not
/// zero, in lines of `line_width(wrapcol)` characters, and returns the
/// number of characters written.
pub fn encode_into(
    input: &[u8],
    out: &mut Vec<u8>,
    alphabet: &[u8; 64],
    padded: u8,
    wrapcol: usize,
    pair_table: Option<&PairTable>,
) -> (written: usize)
    requires
        wrapped_len(encoding_len(input@.len(), padded != 0), line_width(wrapcol as nat))
            <= usize::MAX,
    ensures
        final(out)@ == old(out)@ + wrapped(
            encoded_text(input@, groups_alphabet(alphabet@, pair_table), alphabet@, padded != 0),
            line_width(wrapcol as nat),
        ),
        groups_alphabet(alphabet@, pair_table) == alphabet@ ==> encoded_text(
            input@,
            groups_alphabet(alphabet@, pair_table),
            alphabet@,
            padded != 0,
        ) == encoding(input@, alphabet@, padded != 0),
        written == wrapped_len(encoding_len(input@.len(), padded != 0), line_width(wrapcol as nat)),
{
    let ghost ga = groups_alphabet(alphabet@, pair_table);
    let ghost width = line_width(wrapcol as nat);
    let ghost al = alphabet@;
    let ghost pad = padded != 0;
    let input_len = input.len();
    let wrap: usize = if wrapcol == 0 {
        usize::MAX
    } else {
        let quads = wrapcol / 4;
        (if quads < 1 {
            1
        } else {
            quads
        }) * 4
    };
    let start = out.len();
    proof {
        lemma_encoding_len(input@, al, pad);
        lemma_blocks_len(input@, al, input_len as nat / 3);
        lemma_blocks_len(input@, ga, input_len as nat / 3);
        assert(encoded_text(input@, ga, al, pad).len() == encoding(input@, al, pad).len());
        lemma_wrapped_len(encoded_text(input@, ga, al, pad), width);
        let total = encoding_len(input_len as nat, pad);
        if width > 0 && total > 0 {
            vstd::arithmetic::div_mod::lemma_div_pos_is_pos((total - 1) as int, width as int);
        }
        assert(4 * (input_len as nat / 3) <= total);
        assert(total <= wrapped_len(total, width));
    }
    let (column, Ghost(lines)) = encode_groups(input, out, alphabet, wrap, pair_table, Ghost(width));
    proof {
        lemma_blocks_len(input@, ga, input_len as nat / 3);
    }
    encode_last(
        input,
        out,
        alphabet,
        padded,
        column,
        wrap,
        Ghost(width),
        Ghost(lines),
        Ghost(blocks(input@, ga, input_len as nat / 3)),
        Ghost(old(out)@),
    );
    out.len() - start
}

/// Encodes `input` as `python::encode` does, the first part with the
/// portable pair-table bulk encoder.
pub fn encode(input: &[u8], altchars: Option<&[u8]>, padded: bool, wrapcol: isize) -> (result: Result<
    Vec<u8>,
    EncodeError,
>)
    ensures
        outcome(result) == encode_outcome(input@, altchars, padded, wrapcol as int, BulkEncoder::Scalar),
{
    python::encode(input, altchars, padded, wrapcol, BulkEncoder::Scalar)
}

} // verus!
