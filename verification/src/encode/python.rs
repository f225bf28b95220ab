//! The encoding front end that the Python bindings call: argument checks,
//! the output length, and the hand-over from a bulk encoder to the
//! portable encoder for the rest of the input.

use vstd::prelude::*;

use crate::encode::alphabet::{Alphabet, AlphabetTable, alphabet_with_suffix, standard_alphabet};
use crate::encode::scalar::{encode_into, encode_pairs, pair_alphabet};
use crate::encode::{avx2, avx512, neon32, neon64, scalar, ssse3};
use crate::model::{
    blocks, encoding, encoding_len, lemma_encoding_len, lemma_encoding_split, line_width, wrapped,
    wrapped_len,
};

verus! {

/// Inputs from this size on are encoded through a pair table even with an
/// alphabet of the caller's own.
const PAIR_TABLE_MIN_INPUT: usize = 32 * 1024;

/// The bulk encoders that can take the first part of an input.
#[derive(Clone, Copy, Debug, PartialEq, Eq, Structural)]
pub enum BulkEncoder {
    Scalar,
    Ssse3,
    Avx2,
    Avx512,
    Neon64,
    Neon32,
}

/// The number of input bytes of a `len`-byte input that `bulk` takes
/// with `alphabet`.
pub open spec fn bulk_prefix_len(bulk: BulkEncoder, len: nat, alphabet: Seq<u8>) -> nat {
    match bulk {
        BulkEncoder::Scalar => scalar::prefix_len(len, alphabet),
        BulkEncoder::Ssse3 => ssse3::prefix_len(len),
        BulkEncoder::Avx2 => avx2::prefix_len(len),
        BulkEncoder::Avx512 => avx512::prefix_len(len),
        BulkEncoder::Neon64 => neon64::prefix_len(len),
        BulkEncoder::Neon32 => neon32::prefix_len(len),
    }
}

/// The alphabet that `bulk` actually encodes with when given `alphabet`.
pub open spec fn bulk_alphabet(bulk: BulkEncoder, alphabet: Seq<u8>) -> Seq<u8> {
    match bulk {
        BulkEncoder::Scalar => pair_alphabet(alphabet),
        BulkEncoder::Ssse3 => alphabet_with_suffix(alphabet[62], alphabet[63]),
        BulkEncoder::Avx2 => alphabet_with_suffix(alphabet[62], alphabet[63]),
        BulkEncoder::Avx512 => alphabet,
        BulkEncoder::Neon64 => alphabet,
        BulkEncoder::Neon32 => alphabet_with_suffix(alphabet[62], alphabet[63]),
    }
}

/// Runs the bulk encoder `bulk` on `input` and returns how many input
/// bytes it took.
pub fn bulk_encode(bulk: BulkEncoder, input: &[u8], out: &mut Vec<u8>, alphabet: &AlphabetTable) -> (consumed:
    usize)
    ensures
        consumed == bulk_prefix_len(bulk, input@.len(), alphabet.0@),
        consumed % 3 == 0,
        final(out)@ == old(out)@ + blocks(
            input@,
            bulk_alphabet(bulk, alphabet.0@),
            consumed as nat / 3,
        ),
{
    match bulk {
        BulkEncoder::Scalar => scalar::encode_simd_prefix(input, out, alphabet),
        BulkEncoder::Ssse3 => ssse3::encode_simd_prefix(input, out, alphabet),
        BulkEncoder::Avx2 => avx2::encode_simd_prefix(input, out, alphabet),
        BulkEncoder::Avx512 => avx512::encode_simd_prefix(input, out, alphabet),
        BulkEncoder::Neon64 => neon64::encode_simd_prefix(input, out, alphabet),
        BulkEncoder::Neon32 => neon32::encode_simd_prefix(input, out, alphabet),
    }
}

/// The length of the encoding of `input_len` bytes, padded or not, in
/// lines of `line_width(wrapcol)` characters; `None` when it, or the
/// padded length of the unwrapped encoding, does not fit in a `usize`.
pub fn encoded_len(input_len: usize, padded: bool, wrapcol: usize) -> (len: Option<usize>)
    ensures
        len == if encoding_len(input_len as nat, true) <= usize::MAX && wrapped_len(
            encoding_len(input_len as nat, padded),
            line_width(wrapcol as nat),
        ) <= usize::MAX {
            Some(wrapped_len(encoding_len(input_len as nat, padded), line_width(wrapcol as nat)) as usize)
        } else {
            None
        },
{
    let groups = input_len / 3 + if input_len % 3 == 0 {
        0
    } else {
        1
    };
    let raw_len = groups.checked_mul(4)?;
    let encoded_len = if padded {
        raw_len
    } else {
        raw_len.checked_sub(
            if input_len % 3 == 1 {
                2
            } else if input_len % 3 == 2 {
                1
            } else {
                0
            },
        )?
    };
    if wrapcol == 0 || encoded_len == 0 {
        return Some(encoded_len);
    }
    let quads = wrapcol / 4;
    let wrap = (if quads < 1 {
        1
    } else {
        quads
    }) * 4;
    encoded_len.checked_add((encoded_len - 1) / wrap)
}

/// Why `encode` refused its arguments.
#[derive(Clone, Copy, Debug, PartialEq, Eq, Structural)]
pub enum EncodeError {
    /// `wrapcol` was negative.
    NegativeWrapcol,
    /// `altchars` did not hold exactly two bytes.
    InvalidAltchars,
    /// The encoding would be longer than the largest object.
    TooLarge,
}

/// The alphabet that `altchars` asks for: the standard one, or the
/// standard one with the two given characters in place of `+` and `/`.
pub open spec fn request_alphabet(altchars: Option<&[u8]>) -> Seq<u8> {
    match altchars {
        Some(chars) => alphabet_with_suffix(chars@[0], chars@[1]),
        None => standard_alphabet(),
    }
}

/// `altchars` is absent or holds exactly two characters.
pub open spec fn altchars_ok(altchars: Option<&[u8]>) -> bool {
    match altchars {
        Some(chars) => chars@.len() == 2,
        None => true,
    }
}

/// The encoding fits the largest object: its padded unwrapped length fits
/// a `usize` and its final length an `isize`.
pub open spec fn fits(input_len: nat, padded: bool, wrapcol: nat) -> bool {
    &&& encoding_len(input_len, true) <= usize::MAX
    &&& wrapped_len(encoding_len(input_len, padded), line_width(wrapcol)) <= isize::MAX
}

/// What `encode` returns for acceptable arguments: without wrapping, the
/// bulk encoder's part followed by the rest; with wrapping, the encoding
/// in lines.
pub open spec fn encode_output(
    input: Seq<u8>,
    alphabet: Seq<u8>,
    padded: bool,
    wrapcol: nat,
    bulk: BulkEncoder,
) -> Seq<u8> {
    if wrapcol == 0 {
        let consumed = bulk_prefix_len(bulk, input.len(), alphabet);
        blocks(input, bulk_alphabet(bulk, alphabet), consumed / 3) + encoding(
            input.skip(consumed as int),
            alphabet,
            padded,
        )
    } else {
        wrapped(encoding(input, alphabet, padded), line_width(wrapcol))
    }
}

/// A result of `encode`, with the output as a sequence of bytes.
pub open spec fn outcome(result: Result<Vec<u8>, EncodeError>) -> Result<Seq<u8>, EncodeError> {
    match result {
        Ok(out) => Ok(out@),
        Err(error) => Err(error),
    }
}

/// What `encode` returns: an error for a negative `wrapcol`, then for
/// `altchars` of other than two bytes, then for an encoding too large for
/// one object; else the encoded bytes.
pub open spec fn encode_outcome(
    input: Seq<u8>,
    altchars: Option<&[u8]>,
    padded: bool,
    wrapcol: int,
    bulk: BulkEncoder,
) -> Result<Seq<u8>, EncodeError> {
    if wrapcol < 0 {
        Err(EncodeError::NegativeWrapcol)
    } else if !altchars_ok(altchars) {
        Err(EncodeError::InvalidAltchars)
    } else if !fits(input.len(), padded, wrapcol as nat) {
        Err(EncodeError::TooLarge)
    } else {
        Ok(encode_output(input, request_alphabet(altchars), padded, wrapcol as nat, bulk))
    }
}

/// Every bulk encoder encodes with the alphabet it is given when that
/// alphabet differs from the standard one at most in its last two
/// characters.
pub proof fn lemma_bulk_alphabet(bulk: BulkEncoder, c62: u8, c63: u8)
    ensures
        bulk_alphabet(bulk, alphabet_with_suffix(c62, c63)) == alphabet_with_suffix(c62, c63),
{
    let alphabet = alphabet_with_suffix(c62, c63);
    assert(alphabet[62] == c62 && alphabet[63] == c63);
    if c62 == 43u8 && c63 == 47u8 {
        assert(alphabet =~= standard_alphabet());
    }
    if c62 == 45u8 && c63 == 95u8 {
        assert(alphabet =~= crate::encode::alphabet::urlsafe_alphabet());
    }
    assert(alphabet_with_suffix(alphabet[62], alphabet[63]) =~= alphabet);
}

/// The law of the bulk encoders: whichever one takes the first part of
/// the input, the output is the encoding of the whole input.
pub proof fn lemma_every_bulk_encoder_agrees(
    input: Seq<u8>,
    c62: u8,
    c63: u8,
    padded: bool,
    wrapcol: nat,
    bulk: BulkEncoder,
)
    ensures
        encode_output(input, alphabet_with_suffix(c62, c63), padded, wrapcol, bulk) == wrapped(
            encoding(input, alphabet_with_suffix(c62, c63), padded),
            line_width(wrapcol),
        ),
{
    let alphabet = alphabet_with_suffix(c62, c63);
    if wrapcol == 0 {
        lemma_bulk_alphabet(bulk, c62, c63);
        let consumed = bulk_prefix_len(bulk, input.len(), alphabet);
        assert(consumed % 3 == 0 && consumed <= input.len());
        lemma_encoding_split(input, alphabet, padded, consumed);
    }
}

/// The length of what `encode` returns for acceptable arguments.
proof fn lemma_encode_output_len(
    input: Seq<u8>,
    alphabet: Seq<u8>,
    padded: bool,
    wrapcol: nat,
    bulk: BulkEncoder,
)
    ensures
        encode_output(input, alphabet, padded, wrapcol, bulk).len() == wrapped_len(
            encoding_len(input.len(), padded),
            line_width(wrapcol),
        ),
{
    if wrapcol == 0 {
        let consumed = bulk_prefix_len(bulk, input.len(), alphabet);
        assert(consumed % 3 == 0 && consumed <= input.len());
        crate::model::lemma_blocks_len(input, bulk_alphabet(bulk, alphabet), consumed / 3);
        lemma_encoding_len(input.skip(consumed as int), alphabet, padded);
        let n = input.len();
        assert(encoding_len(n, padded) == consumed / 3 * 4 + encoding_len(
            (n - consumed) as nat,
            padded,
        ));
    } else {
        lemma_encoding_len(input, alphabet, padded);
        crate::model::lemma_wrapped_len(encoding(input, alphabet, padded), line_width(wrapcol));
    }
}

/// Appends the encoding of `input` with `alphabet` (whose pair table is
/// that of `kind`, when `kind` names it) as `encode` does once its
/// arguments are checked.
fn encode_checked(
    input: &[u8],
    out: &mut Vec<u8>,
    alphabet: &AlphabetTable,
    kind: Option<Alphabet>,
    padded: bool,
    wrapcol: usize,
    bulk: BulkEncoder,
)
    requires
        fits(input@.len(), padded, wrapcol as nat),
        kind matches Some(kind) ==> kind.chars() == alphabet.0@,
    ensures
        final(out)@ == old(out)@ + encode_output(input@, alphabet.0@, padded, wrapcol as nat, bulk),
{
    let pairs = match kind {
        Some(kind) => Some(kind.pairs()),
        None => None,
    };
    let consumed = if wrapcol == 0 {
        bulk_encode(bulk, input, out, alphabet)
    } else {
        0
    };
    let rest = vstd::slice::slice_subrange(input, consumed, input.len());
    assert(rest@ =~= input@.skip(consumed as int));
    let padded_flag: u8 = if padded {
        1
    } else {
        0
    };
    proof {
        let n = input@.len();
        assert(encoding_len(n, padded) == consumed / 3 * 4 + encoding_len(
            (n - consumed) as nat,
            padded,
        ));
        if wrapcol != 0 {
            assert(rest@ =~= input@);
        }
    }
    match pairs {
        Some(table) => {
            encode_into(rest, out, &alphabet.0, padded_flag, wrapcol, Some(&table));
        },
        None => {
            if rest.len() >= PAIR_TABLE_MIN_INPUT {
                let table = encode_pairs(&alphabet.0);
                encode_into(rest, out, &alphabet.0, padded_flag, wrapcol, Some(&table));
            } else {
                encode_into(rest, out, &alphabet.0, padded_flag, wrapcol, None);
            }
        },
    }
    assert(out@ =~= old(out)@ + encode_output(input@, alphabet.0@, padded, wrapcol as nat, bulk));
}

/// Encodes `input` as base64: with the standard alphabet, or with
/// `altchars` in place of `+` and `/`; padded with `=` when `padded`; in
/// lines of `line_width(wrapcol)` characters when `wrapcol` is positive.
/// Without wrapping, the bulk encoder `bulk` takes the first part of the
/// input.
pub fn encode(
    input: &[u8],
    altchars: Option<&[u8]>,
    padded: bool,
    wrapcol: isize,
    bulk: BulkEncoder,
) -> (result: Result<Vec<u8>, EncodeError>)
    ensures
        outcome(result) == encode_outcome(input@, altchars, padded, wrapcol as int, bulk),
        result matches Ok(out) ==> out@ == wrapped(
            encoding(input@, request_alphabet(altchars), padded),
            line_width(wrapcol as nat),
        ),
        result matches Ok(out) ==> out@.len() == wrapped_len(
            encoding_len(input@.len(), padded),
            line_width(wrapcol as nat),
        ),
{
    if wrapcol < 0 {
        return Err(EncodeError::NegativeWrapcol);
    }
    let mut alphabet = Alphabet::Standard.table();
    let kind = match altchars {
        Some(chars) => {
            if chars.len() != 2 {
                return Err(EncodeError::InvalidAltchars);
            }
            let suffix = [chars[0], chars[1]];
            alphabet.0[62] = suffix[0];
            alphabet.0[63] = suffix[1];
            Alphabet::from_altchars(suffix)
        },
        None => Some(Alphabet::Standard),
    };
    let ghost requested = request_alphabet(altchars);
    assert(alphabet.0@ =~= requested);
    proof {
        if kind == Some(Alphabet::Standard) {
            assert(requested =~= standard_alphabet());
        }
        if kind == Some(Alphabet::UrlSafe) {
            assert(requested =~= crate::encode::alphabet::urlsafe_alphabet());
        }
    }
    let wrapcol = wrapcol as usize;
    let output_len = match encoded_len(input.len(), padded, wrapcol) {
        Some(len) => len,
        None => return Err(EncodeError::TooLarge),
    };
    if output_len > isize::MAX as usize {
        return Err(EncodeError::TooLarge);
    }
    let mut out: Vec<u8> = Vec::with_capacity(output_len);
    encode_checked(input, &mut out, &alphabet, kind, padded, wrapcol, bulk);
    proof {
        assert(out@ =~= encode_output(input@, requested, padded, wrapcol as nat, bulk));
        lemma_encode_output_len(input@, requested, padded, wrapcol as nat, bulk);
        assert(requested =~= alphabet_with_suffix(requested[62], requested[63]));
        lemma_every_bulk_encoder_agrees(
            input@,
            requested[62],
            requested[63],
            padded,
            wrapcol as nat,
            bulk,
        );
    }
    Ok(out)
}

} // verus!
