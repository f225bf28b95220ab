//! The two alphabets of the library and the tables built from them.

use vstd::prelude::*;

use crate::encode::scalar::{PairTable, encode_pairs};
use crate::model::{encoding, lemma_encoding_alphabet_map};

verus! {

/// A 64-character base64 alphabet: entry `v` is the character that
/// encodes the 6-bit value `v`.
#[derive(Clone, Copy)]
pub struct AlphabetTable(pub [u8; 64]);

/// The standard alphabet of RFC 4648, `A`-`Z`, `a`-`z`, `0`-`9`, `+`, `/`.
pub const ALPHABET: [u8; 64] = [
    65, 66, 67, 68, 69, 70, 71, 72, 73, 74, 75, 76, 77, 78, 79, 80, 81, 82, 83, 84, 85, 86,
    87, 88, 89, 90, 97, 98, 99, 100, 101, 102, 103, 104, 105, 106, 107, 108, 109, 110, 111,
    112, 113, 114, 115, 116, 117, 118, 119, 120, 121, 122, 48, 49, 50, 51, 52, 53, 54, 55, 56,
    57, 43, 47
];

/// The URL- and filename-safe alphabet of RFC 4648, with `-` and `_` in
/// place of `+` and `/`.
pub const URLSAFE_ALPHABET: [u8; 64] = [
    65, 66, 67, 68, 69, 70, 71, 72, 73, 74, 75, 76, 77, 78, 79, 80, 81, 82, 83, 84, 85, 86,
    87, 88, 89, 90, 97, 98, 99, 100, 101, 102, 103, 104, 105, 106, 107, 108, 109, 110, 111,
    112, 113, 114, 115, 116, 117, 118, 119, 120, 121, 122, 48, 49, 50, 51, 52, 53, 54, 55, 56,
    57, 45, 95
];

/// The character of the standard alphabet for the 6-bit value `v`.
pub open spec fn standard_char(v: int) -> u8 {
    if v < 26 {
        (65 + v) as u8
    } else if v < 52 {
        (97 + v - 26) as u8
    } else if v < 62 {
        (48 + v - 52) as u8
    } else if v == 62 {
        43u8
    } else {
        47u8
    }
}

/// The standard alphabet as a sequence.
pub open spec fn standard_alphabet() -> Seq<u8> {
    Seq::new(64, |v: int| standard_char(v))
}

/// The standard alphabet with `c62` and `c63` in its last two places.
pub open spec fn alphabet_with_suffix(c62: u8, c63: u8) -> Seq<u8> {
    standard_alphabet().update(62, c62).update(63, c63)
}

/// The URL-safe alphabet as a sequence.
pub open spec fn urlsafe_alphabet() -> Seq<u8> {
    alphabet_with_suffix(45u8, 95u8)
}

proof fn lemma_table_contents()
    ensures
        ALPHABET@ == standard_alphabet(),
        URLSAFE_ALPHABET@ == urlsafe_alphabet(),
{
    assert(ALPHABET@ =~= standard_alphabet());
    assert(URLSAFE_ALPHABET@ =~= urlsafe_alphabet());
}

/// The two alphabets that the library knows by name.
#[derive(Clone, Copy, Debug, PartialEq, Eq, Structural)]
pub enum Alphabet {
    Standard,
    UrlSafe,
}

impl Alphabet {
    /// The characters of this alphabet.
    pub open spec fn chars(self) -> Seq<u8> {
        match self {
            Alphabet::Standard => standard_alphabet(),
            Alphabet::UrlSafe => urlsafe_alphabet(),
        }
    }

    /// The 64 characters of this alphabet.
    pub fn as_bytes(self) -> (bytes: &'static [u8; 64])
        ensures
            bytes@ == self.chars(),
    {
        proof {
            lemma_table_contents();
        }
        match self {
            Alphabet::Standard => &ALPHABET,
            Alphabet::UrlSafe => &URLSAFE_ALPHABET,
        }
    }

    /// This alphabet as a table of its own.
    pub fn table(self) -> (table: AlphabetTable)
        ensures
            table.0@ == self.chars(),
    {
        AlphabetTable(*self.as_bytes())
    }

    /// The named alphabet whose last two characters are `altchars`, where
    /// only `-_` (the URL-safe alphabet) is recognised.
    pub fn from_altchars(altchars: [u8; 2]) -> (alphabet: Option<Self>)
        ensures
            alphabet == (if altchars@ == seq![45u8, 95u8] {
                Some(Alphabet::UrlSafe)
            } else {
                None
            }),
    {
        if altchars[0] == 45u8 && altchars[1] == 95u8 {
            assert(altchars@ =~= seq![45u8, 95u8]);
            Some(Alphabet::UrlSafe)
        } else {
            None
        }
    }

    /// The pair table of this alphabet.
    pub fn pairs(self) -> (table: PairTable)
        ensures
            table.chars() == self.chars(),
            table.encodes(self.chars()),
    {
        encode_pairs(self.as_bytes())
    }
}

/// Replaces `+` by `c62` and `/` by `c63`, and keeps every other byte.
pub open spec fn substitute_altchars(c62: u8, c63: u8) -> spec_fn(u8) -> u8 {
    |c: u8|
        if c == 43u8 {
            c62
        } else if c == 47u8 {
            c63
        } else {
            c
        }
}

/// The alternative-characters law: encoding with `c62` and `c63` in place
/// of `+` and `/` gives the standard encoding with every `+` replaced by
/// `c62` and every `/` by `c63`.
pub proof fn lemma_altchars_substitute(input: Seq<u8>, c62: u8, c63: u8, padded: bool)
    ensures
        encoding(input, alphabet_with_suffix(c62, c63), padded) == encoding(
            input,
            standard_alphabet(),
            padded,
        ).map_values(substitute_altchars(c62, c63)),
{
    let f = substitute_altchars(c62, c63);
    assert forall|v: int| 0 <= v < 64 implies #[trigger] f(standard_alphabet()[v])
        == alphabet_with_suffix(c62, c63)[v] by {}
    lemma_encoding_alphabet_map(input, standard_alphabet(), alphabet_with_suffix(c62, c63), f, padded);
}

} // verus!
