use base64_rs::encode::python::{encode, BulkEncoder};

fn sample(len: usize, seed: usize) -> Vec<u8> {
    (0..len).map(|i| ((i * 97 + seed * 31 + 3) % 256) as u8).collect()
}

#[test]
fn padding_only_appends_equals_signs() {
    for len in 0..40 {
        let input = sample(len, 1);
        let padded = encode(&input, None, true, 0, BulkEncoder::Scalar).unwrap();
        let unpadded = encode(&input, None, false, 0, BulkEncoder::Scalar).unwrap();
        assert_eq!(padded.len() % 4, 0);
        assert!(padded.starts_with(&unpadded));
        assert!(padded[unpadded.len()..].iter().all(|&c| c == b'='));
        assert!(!unpadded.contains(&b'='));
    }
}

#[test]
fn wrapping_only_inserts_newlines() {
    for len in [0usize, 5, 57, 58, 300] {
        let input = sample(len, 2);
        let flat = encode(&input, None, true, 0, BulkEncoder::Scalar).unwrap();
        for wrapcol in [1isize, 8, 76] {
            let lines = encode(&input, None, true, wrapcol, BulkEncoder::Scalar).unwrap();
            let joined: Vec<u8> = lines.iter().copied().filter(|&c| c != b'\n').collect();
            assert_eq!(joined, flat);
            assert!(!lines.ends_with(b"\n"));
        }
    }
}

#[test]
fn output_uses_only_alphabet_and_padding() {
    let standard: &[u8] = b"ABCDEFGHIJKLMNOPQRSTUVWXYZabcdefghijklmnopqrstuvwxyz0123456789+/";
    let input: Vec<u8> = (0..=255u8).collect();
    let out = encode(&input, None, true, 0, BulkEncoder::Avx2).unwrap();
    assert!(out.iter().all(|c| standard.contains(c) || *c == b'='));
    let out = encode(&input, Some(b"-_"), true, 0, BulkEncoder::Scalar).unwrap();
    assert!(out.iter().all(|c| c.is_ascii_alphanumeric() || *c == b'-' || *c == b'_' || *c == b'='));
}

#[test]
fn different_inputs_encode_differently() {
    let inputs: Vec<Vec<u8>> = vec![
        vec![],
        vec![0],
        vec![0, 0],
        vec![0, 0, 0],
        vec![0, 0, 0, 0],
        vec![1],
        vec![0, 1],
        vec![255, 255, 255],
        vec![255, 255],
    ];
    for padded in [true, false] {
        for (i, a) in inputs.iter().enumerate() {
            for (j, b) in inputs.iter().enumerate() {
                let ea = encode(a, None, padded, 0, BulkEncoder::Scalar).unwrap();
                let eb = encode(b, None, padded, 0, BulkEncoder::Scalar).unwrap();
                assert_eq!(ea == eb, i == j, "{a:?} {b:?}");
            }
        }
    }
}

#[test]
fn altchars_substitute_plus_and_slash() {
    let input: Vec<u8> = (0..=255u8).rev().collect();
    let standard = encode(&input, None, true, 0, BulkEncoder::Scalar).unwrap();
    for (c62, c63) in [(b'-', b'_'), (b'*', b'!'), (b'/', b'+')] {
        let alt = encode(&input, Some(&[c62, c63]), true, 0, BulkEncoder::Ssse3).unwrap();
        let substituted: Vec<u8> = standard
            .iter()
            .map(|&c| if c == b'+' { c62 } else if c == b'/' { c63 } else { c })
            .collect();
        assert_eq!(alt, substituted);
    }
}
