use base64_rs::encode::{avx2, avx512, neon32, neon64, scalar, ssse3};
use base64_rs::encode::alphabet::{Alphabet, AlphabetTable};
use base64_rs::encode::python::{bulk_encode, encode, encoded_len, BulkEncoder, EncodeError};
use base64_rs::encode::scalar::{encode_into, encode_pairs};

const STANDARD: &[u8; 64] = b"ABCDEFGHIJKLMNOPQRSTUVWXYZabcdefghijklmnopqrstuvwxyz0123456789+/";

const ALL_BULK: [BulkEncoder; 6] = [
    BulkEncoder::Scalar,
    BulkEncoder::Ssse3,
    BulkEncoder::Avx2,
    BulkEncoder::Avx512,
    BulkEncoder::Neon64,
    BulkEncoder::Neon32,
];

/// A plain reference encoder, written independently of the library.
fn reference(input: &[u8], alphabet: &[u8; 64], padded: bool) -> Vec<u8> {
    let mut out = Vec::new();
    for chunk in input.chunks(3) {
        let b0 = chunk[0] as u32;
        let b1 = if chunk.len() > 1 { chunk[1] as u32 } else { 0 };
        let b2 = if chunk.len() > 2 { chunk[2] as u32 } else { 0 };
        let bits = (b0 << 16) | (b1 << 8) | b2;
        let chars = chunk.len() + 1;
        for k in 0..4 {
            if k < chars {
                out.push(alphabet[((bits >> (18 - 6 * k)) & 63) as usize]);
            } else if padded {
                out.push(b'=');
            }
        }
    }
    out
}

fn wrap_reference(text: &[u8], width: usize) -> Vec<u8> {
    let mut out = Vec::new();
    for (i, line) in text.chunks(width).enumerate() {
        if i > 0 {
            out.push(b'\n');
        }
        out.extend_from_slice(line);
    }
    out
}

fn sample(len: usize) -> Vec<u8> {
    (0..len).map(|i| ((i * 151 + 7) % 256) as u8).collect()
}

fn with_suffix(c62: u8, c63: u8) -> [u8; 64] {
    let mut alphabet = *STANDARD;
    alphabet[62] = c62;
    alphabet[63] = c63;
    alphabet
}

#[test]
fn rfc4648_test_vectors_padded() {
    let cases: [(&[u8], &[u8]); 7] = [
        (b"", b""),
        (b"f", b"Zg=="),
        (b"fo", b"Zm8="),
        (b"foo", b"Zm9v"),
        (b"foob", b"Zm9vYg=="),
        (b"fooba", b"Zm9vYmE="),
        (b"foobar", b"Zm9vYmFy"),
    ];
    for (input, expected) in cases {
        assert_eq!(encode(input, None, true, 0, BulkEncoder::Scalar).unwrap(), expected.to_vec());
    }
}

#[test]
fn rfc4648_test_vectors_unpadded() {
    let cases: [(&[u8], &[u8]); 4] = [(b"f", b"Zg"), (b"fo", b"Zm8"), (b"foob", b"Zm9vYg"), (b"fooba", b"Zm9vYmE")];
    for (input, expected) in cases {
        assert_eq!(encode(input, None, false, 0, BulkEncoder::Scalar).unwrap(), expected.to_vec());
    }
}

#[test]
fn readme_example() {
    assert_eq!(encode(b"lava-sh", None, true, 0, BulkEncoder::Scalar).unwrap(), b"bGF2YS1zaA==".to_vec());
}

#[test]
fn standard_and_urlsafe_alphabets() {
    assert_eq!(encode(b"\xfb\xff", None, true, 0, BulkEncoder::Scalar).unwrap(), b"+/8=".to_vec());
    assert_eq!(encode(b"\xfb\xff", Some(b"-_"), true, 0, BulkEncoder::Scalar).unwrap(), b"-_8=".to_vec());
}

#[test]
fn custom_altchars() {
    assert_eq!(encode(b"\xfb\xff", Some(b"*!"), true, 0, BulkEncoder::Scalar).unwrap(), b"*!8=".to_vec());
    assert_eq!(encode(b"\xfb\xef\xbe", Some(b"*!"), true, 0, BulkEncoder::Avx2).unwrap(), b"****".to_vec());
    assert_eq!(encode(b"\xff\xff\xff", Some(b"*!"), true, 0, BulkEncoder::Avx2).unwrap(), b"!!!!".to_vec());
}

#[test]
fn negative_wrapcol_is_refused() {
    assert_eq!(encode(b"abc", None, true, -1, BulkEncoder::Scalar), Err(EncodeError::NegativeWrapcol));
    assert_eq!(encode(b"abc", Some(b"xyz"), true, -5, BulkEncoder::Scalar), Err(EncodeError::NegativeWrapcol));
}

#[test]
fn altchars_of_wrong_length_are_refused() {
    assert_eq!(encode(b"abc", Some(b"-"), true, 0, BulkEncoder::Scalar), Err(EncodeError::InvalidAltchars));
    assert_eq!(encode(b"abc", Some(b"-_."), true, 0, BulkEncoder::Scalar), Err(EncodeError::InvalidAltchars));
    assert_eq!(encode(b"abc", Some(b""), false, 3, BulkEncoder::Scalar), Err(EncodeError::InvalidAltchars));
}

#[test]
fn wrapping_in_lines_of_76() {
    let input: Vec<u8> = (0..100u8).collect();
    let out = encode(&input, None, true, 76, BulkEncoder::Scalar).unwrap();
    let expected: &[u8] = b"AAECAwQFBgcICQoLDA0ODxAREhMUFRYXGBkaGxwdHh8gISIjJCUmJygpKissLS4vMDEyMzQ1Njc4\nOTo7PD0+P0BBQkNERUZHSElKS0xNTk9QUVJTVFVWV1hZWltcXV5fYGFiYw==";
    assert_eq!(out, expected.to_vec());
}

#[test]
fn wrapcol_is_rounded_down_to_quads() {
    assert_eq!(encode(b"foobar", None, true, 5, BulkEncoder::Scalar).unwrap(), b"Zm9v\nYmFy".to_vec());
    assert_eq!(encode(b"foobar", None, true, 1, BulkEncoder::Scalar).unwrap(), b"Zm9v\nYmFy".to_vec());
    assert_eq!(encode(b"foob", None, true, 4, BulkEncoder::Scalar).unwrap(), b"Zm9v\nYg==".to_vec());
    assert_eq!(encode(b"foob", None, false, 4, BulkEncoder::Scalar).unwrap(), b"Zm9v\nYg".to_vec());
    assert_eq!(encode(b"foo", None, true, 4, BulkEncoder::Scalar).unwrap(), b"Zm9v".to_vec());
    assert_eq!(encode(b"", None, true, 4, BulkEncoder::Scalar).unwrap(), b"".to_vec());
}

#[test]
fn wrapped_output_matches_reference() {
    for len in [0usize, 1, 2, 3, 10, 56, 57, 58, 200] {
        let input = sample(len);
        for wrapcol in [1isize, 4, 7, 8, 76] {
            let width = if wrapcol < 4 { 4 } else { (wrapcol as usize) / 4 * 4 };
            for padded in [true, false] {
                let out = encode(&input, None, padded, wrapcol, BulkEncoder::Avx512).unwrap();
                assert_eq!(out, wrap_reference(&reference(&input, STANDARD, padded), width));
                assert_eq!(Some(out.len()), encoded_len(len, padded, wrapcol as usize));
            }
        }
    }
}

#[test]
fn every_bulk_encoder_agrees_with_the_reference() {
    let alphabets = [with_suffix(b'+', b'/'), with_suffix(b'-', b'_'), with_suffix(b'.', b',')];
    for len in (0usize..160).chain([1000, 4099]) {
        let input = sample(len);
        for alphabet in alphabets.iter() {
            let altchars = [alphabet[62], alphabet[63]];
            for bulk in ALL_BULK {
                for padded in [true, false] {
                    let out = encode(&input, Some(&altchars), padded, 0, bulk).unwrap();
                    assert_eq!(out, reference(&input, alphabet, padded), "len {len} bulk {bulk:?}");
                }
            }
        }
    }
}

#[test]
fn large_input_with_custom_alphabet_uses_pair_table() {
    let input = sample(40000);
    let alphabet = with_suffix(b'.', b',');
    let out = encode(&input, Some(b".,"), true, 0, BulkEncoder::Scalar).unwrap();
    assert_eq!(out, reference(&input, &alphabet, true));
    let out = encode(&input, Some(b".,"), true, 8, BulkEncoder::Scalar).unwrap();
    assert_eq!(out, wrap_reference(&reference(&input, &alphabet, true), 8));
}

#[test]
fn neon32_bulk_part_uses_the_given_alphabet() {
    let input = vec![0xfbu8; 48];
    let out = encode(&input, Some(b"-_"), true, 0, BulkEncoder::Neon32).unwrap();
    assert_eq!(&out[..4], b"-_v7");
    assert_eq!(out, reference(&input, &with_suffix(b'-', b'_'), true));
    let input = vec![0xfbu8; 50];
    let out = encode(&input, Some(b"-_"), true, 0, BulkEncoder::Neon32).unwrap();
    assert_eq!(out, reference(&input, &with_suffix(b'-', b'_'), true));
}

#[test]
fn encoded_len_values() {
    assert_eq!(encoded_len(0, true, 0), Some(0));
    assert_eq!(encoded_len(1, true, 0), Some(4));
    assert_eq!(encoded_len(1, false, 0), Some(2));
    assert_eq!(encoded_len(2, false, 0), Some(3));
    assert_eq!(encoded_len(3, false, 0), Some(4));
    assert_eq!(encoded_len(100, true, 76), Some(137));
    assert_eq!(encoded_len(57, true, 76), Some(76));
    assert_eq!(encoded_len(0, true, 76), Some(0));
    assert_eq!(encoded_len(6, true, 1), Some(9));
}

#[test]
fn encoded_len_overflow() {
    assert_eq!(encoded_len(usize::MAX, true, 0), None);
    assert_eq!(encoded_len(usize::MAX, false, 0), None);
    assert_eq!(encoded_len(usize::MAX / 4 * 3, true, 4), None);
}

#[test]
fn bulk_prefix_lengths() {
    let input = sample(100);
    let standard = Alphabet::Standard.table();
    let custom = AlphabetTable(with_suffix(b'.', b','));
    let expected = [
        (BulkEncoder::Scalar, 96usize),
        (BulkEncoder::Ssse3, 96),
        (BulkEncoder::Avx2, 96),
        (BulkEncoder::Avx512, 96),
        (BulkEncoder::Neon64, 96),
        (BulkEncoder::Neon32, 96),
    ];
    for (bulk, consumed) in expected {
        let mut out = Vec::new();
        assert_eq!(bulk_encode(bulk, &input, &mut out, &standard), consumed);
        assert_eq!(out, reference(&input[..consumed], STANDARD, true));
    }
    let mut out = Vec::new();
    assert_eq!(bulk_encode(BulkEncoder::Scalar, &input, &mut out, &custom), 0);
    assert!(out.is_empty());
    let small = sample(31);
    let mut out = Vec::new();
    assert_eq!(bulk_encode(BulkEncoder::Avx2, &small, &mut out, &standard), 0);
    assert_eq!(bulk_encode(BulkEncoder::Ssse3, &small, &mut out, &standard), 24);
    let mut out = Vec::new();
    assert_eq!(bulk_encode(BulkEncoder::Scalar, &sample(7), &mut out, &standard), 0);
    assert_eq!(bulk_encode(BulkEncoder::Scalar, &sample(8), &mut out, &standard), 6);
    assert_eq!(bulk_encode(BulkEncoder::Neon64, &sample(47), &mut out, &standard), 0);
    assert_eq!(bulk_encode(BulkEncoder::Avx512, &sample(47), &mut out, &standard), 0);
}

#[test]
fn encode_into_with_and_without_pairs() {
    let input = sample(59);
    let table = encode_pairs(STANDARD);
    for wrapcol in [0usize, 8, 13] {
        for padded in [0u8, 1] {
            let width = if wrapcol == 0 { usize::MAX } else { wrapcol / 4 * 4 };
            let expected = wrap_reference(&reference(&input, STANDARD, padded != 0), width);
            let mut out = vec![b'#'];
            let written = encode_into(&input, &mut out, STANDARD, padded, wrapcol, Some(&table));
            assert_eq!(written, expected.len());
            assert_eq!(out[0], b'#');
            assert_eq!(&out[1..], &expected[..]);
            let mut out = Vec::new();
            let written = encode_into(&input, &mut out, STANDARD, padded, wrapcol, None);
            assert_eq!(written, expected.len());
            assert_eq!(out, expected);
        }
    }
}

#[test]
fn pair_table_entries() {
    let table = encode_pairs(STANDARD);
    assert_eq!(table.entry(0), u16::from_le_bytes([b'A', b'A']));
    assert_eq!(table.entry(1), u16::from_le_bytes([b'A', b'B']));
    assert_eq!(table.entry(64), u16::from_le_bytes([b'B', b'A']));
    assert_eq!(table.entry(4095), u16::from_le_bytes([b'/', b'/']));
    let urlsafe = Alphabet::UrlSafe.pairs();
    assert_eq!(urlsafe.entry(4095), u16::from_le_bytes([b'_', b'_']));
    assert_eq!(urlsafe.entry(62 * 64 + 1), u16::from_le_bytes([b'-', b'B']));
}

#[test]
fn module_entry_points_encode_alike() {
    let input = sample(100);
    let expected = wrap_reference(&reference(&input, STANDARD, true), 8);
    let flat = reference(&input, STANDARD, true);
    let encoders: [fn(&[u8], Option<&[u8]>, bool, isize) -> Result<Vec<u8>, EncodeError>; 6] =
        [scalar::encode, ssse3::encode, avx2::encode, avx512::encode, neon64::encode, neon32::encode];
    for encoder in encoders {
        assert_eq!(encoder(&input, None, true, 0).unwrap(), flat);
        assert_eq!(encoder(&input, None, true, 8).unwrap(), expected);
        assert_eq!(encoder(&input, None, true, -3), Err(EncodeError::NegativeWrapcol));
    }
}

#[test]
fn pair_lookups_match_direct_encoding() {
    // "Man" is the word 0x4d616e: its halves are 0x4d6 and 0x16e.
    let table = encode_pairs(STANDARD);
    let high = table.entry(0x4d6).to_le_bytes();
    let low = table.entry(0x16e).to_le_bytes();
    assert_eq!([high[0], high[1], low[0], low[1]], *b"TWFu");
    assert_eq!(encode(b"Man", None, true, 0, BulkEncoder::Scalar).unwrap(), b"TWFu");
}

#[test]
fn simd_windows_near_the_end_of_the_input() {
    // Lengths around each encoder's round size, so that the last round's
    // window ends at or near the end of the input.
    for len in 28..120 {
        let input = sample(len);
        for bulk in ALL_BULK {
            let mut out = Vec::new();
            let consumed = bulk_encode(bulk, &input, &mut out, &Alphabet::Standard.table());
            assert!(consumed <= len);
            assert_eq!(out, reference(&input[..consumed], STANDARD, true));
        }
    }
}
