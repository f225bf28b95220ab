use base64_rs::encode::alphabet::{Alphabet, ALPHABET, URLSAFE_ALPHABET};
use base64_rs::encode::{neon32, neon64, ssse3};
use base64_rs::encode::python::BulkEncoder;
use base64_rs::simd_dispatch::{CpuFeatures, SimdIsa};

const STANDARD: &[u8; 64] = b"ABCDEFGHIJKLMNOPQRSTUVWXYZabcdefghijklmnopqrstuvwxyz0123456789+/";

#[test]
fn alphabet_tables() {
    assert_eq!(Alphabet::Standard.as_bytes(), STANDARD);
    assert_eq!(&ALPHABET, STANDARD);
    let urlsafe: &[u8; 64] = b"ABCDEFGHIJKLMNOPQRSTUVWXYZabcdefghijklmnopqrstuvwxyz0123456789-_";
    assert_eq!(Alphabet::UrlSafe.as_bytes(), urlsafe);
    assert_eq!(&URLSAFE_ALPHABET, urlsafe);
    assert_eq!(&Alphabet::UrlSafe.table().0, urlsafe);
    assert_eq!(&Alphabet::Standard.table().0, STANDARD);
}

#[test]
fn from_altchars_recognises_only_urlsafe() {
    assert_eq!(Alphabet::from_altchars([b'-', b'_']), Some(Alphabet::UrlSafe));
    assert_eq!(Alphabet::from_altchars([b'+', b'/']), None);
    assert_eq!(Alphabet::from_altchars([b'_', b'-']), None);
    assert_eq!(Alphabet::from_altchars([b'-', b'-']), None);
}

#[test]
fn translate_ranges() {
    let cases = [(0u8, b'A'), (25, b'Z'), (26, b'a'), (51, b'z'), (52, b'0'), (61, b'9'), (62, b'+'), (63, b'/')];
    for (v, c) in cases {
        assert_eq!(ssse3::translate(v), c);
        assert_eq!(neon32::translate(v), c);
    }
    for v in 0..64u8 {
        assert_eq!(ssse3::translate(v), STANDARD[v as usize]);
        assert_eq!(neon32::translate(v), STANDARD[v as usize]);
    }
}

#[test]
fn translate_with_altchars_replaces_last_two() {
    assert_eq!(ssse3::translate_with_altchars(62, b'-', b'_'), b'-');
    assert_eq!(ssse3::translate_with_altchars(63, b'-', b'_'), b'_');
    assert_eq!(ssse3::translate_with_altchars(0, b'-', b'_'), b'A');
    assert_eq!(ssse3::translate_with_altchars(61, b'-', b'_'), b'9');
}

#[test]
fn reshuffle_lanes() {
    // "Man" is 010011 010110 000101 101110; the shuffled lane holds
    // the bytes "a M n a", least significant first.
    let shuffled: u32 = (b'a' as u32) | ((b'M' as u32) << 8) | ((b'n' as u32) << 16) | ((b'a' as u32) << 24);
    let lane = ssse3::reshuffle(shuffled);
    assert_eq!(lane, 19 | (22 << 8) | (5 << 16) | (46 << 24));
    assert_eq!(neon64::reshuffle(b'M', b'a', b'n'), (19, 22, 5, 46));
    assert_eq!(ssse3::reshuffle(0xffff_ffff), 0x3f3f3f3f);
    assert_eq!(neon64::reshuffle(0xfb, 0xef, 0xbe), (62, 62, 62, 62));
}

#[test]
fn mulhi_keeps_high_halves() {
    assert_eq!(ssse3::mm_mulhi_epu16(0x0fc0fc00, 0x04000040), 0x003f003f);
    assert_eq!(ssse3::mm_mulhi_epu16(0xffffffff, 0xffffffff), 0xfffefffe);
    assert_eq!(ssse3::mm_mulhi_epu16(0x00010001, 0x00010001), 0);
}

#[test]
fn table_lookup_past_the_end_is_zero() {
    let lut: [u8; 16] = [10, 11, 12, 13, 14, 15, 16, 17, 18, 19, 20, 21, 22, 23, 24, 25];
    assert_eq!(neon32::vqtbl1q_u8(&lut, 0), 10);
    assert_eq!(neon32::vqtbl1q_u8(&lut, 15), 25);
    assert_eq!(neon32::vqtbl1q_u8(&lut, 16), 0);
    assert_eq!(neon32::vqtbl1q_u8(&lut, 255), 0);
}

fn features() -> CpuFeatures {
    CpuFeatures {
        avx512f: false,
        avx512bw: false,
        avx512vbmi: false,
        avx2: false,
        sse41: false,
        sse2: false,
        neon: false,
        neon32: false,
    }
}

#[test]
fn detect_takes_the_best_feature() {
    assert_eq!(SimdIsa::detect(features()), SimdIsa::Scalar);
    assert_eq!(SimdIsa::detect(CpuFeatures { neon: true, ..features() }), SimdIsa::Neon);
    assert_eq!(SimdIsa::detect(CpuFeatures { sse2: true, ..features() }), SimdIsa::Sse2);
    assert_eq!(SimdIsa::detect(CpuFeatures { sse2: true, sse41: true, ..features() }), SimdIsa::Sse41);
    assert_eq!(SimdIsa::detect(CpuFeatures { sse2: true, sse41: true, avx2: true, ..features() }), SimdIsa::Avx2);
    assert_eq!(
        SimdIsa::detect(CpuFeatures { sse2: true, sse41: true, avx2: true, avx512f: true, ..features() }),
        SimdIsa::Avx2
    );
    assert_eq!(
        SimdIsa::detect(CpuFeatures { avx2: true, avx512f: true, avx512bw: true, ..features() }),
        SimdIsa::Avx2
    );
    assert_eq!(
        SimdIsa::detect(CpuFeatures { avx2: true, avx512f: true, avx512bw: true, avx512vbmi: true, ..features() }),
        SimdIsa::Avx512
    );
    assert_eq!(SimdIsa::detect(CpuFeatures { neon32: true, ..features() }), SimdIsa::Neon32);
    assert_eq!(SimdIsa::detect(CpuFeatures { neon: true, neon32: true, ..features() }), SimdIsa::Neon);
}

#[test]
fn isa_codes_round_trip() {
    let all = [
        SimdIsa::Scalar,
        SimdIsa::Sse2,
        SimdIsa::Sse41,
        SimdIsa::Avx2,
        SimdIsa::Avx512,
        SimdIsa::Neon,
        SimdIsa::Neon32,
    ];
    for (i, isa) in all.iter().enumerate() {
        assert_eq!(isa.code(), i);
        assert_eq!(SimdIsa::from_code(isa.code()), Some(*isa));
    }
    assert_eq!(SimdIsa::from_code(7), None);
    assert_eq!(SimdIsa::from_code(usize::MAX), None);
}

#[test]
fn isa_encoders() {
    assert_eq!(SimdIsa::Avx512.encoder(), BulkEncoder::Avx512);
    assert_eq!(SimdIsa::Avx2.encoder(), BulkEncoder::Avx2);
    assert_eq!(SimdIsa::Sse41.encoder(), BulkEncoder::Ssse3);
    assert_eq!(SimdIsa::Sse2.encoder(), BulkEncoder::Scalar);
    assert_eq!(SimdIsa::Neon.encoder(), BulkEncoder::Neon64);
    assert_eq!(SimdIsa::Neon32.encoder(), BulkEncoder::Neon32);
    assert_eq!(SimdIsa::Scalar.encoder(), BulkEncoder::Scalar);
}

#[test]
fn entry_points_run_only_on_their_instruction_set() {
    assert!(SimdIsa::Avx512.supports(BulkEncoder::Avx512));
    assert!(!SimdIsa::Avx512.supports(BulkEncoder::Avx2));
    assert!(!SimdIsa::Avx2.supports(BulkEncoder::Avx512));
    assert!(SimdIsa::Sse41.supports(BulkEncoder::Ssse3));
    assert!(SimdIsa::Neon.supports(BulkEncoder::Neon64));
    assert!(!SimdIsa::Neon.supports(BulkEncoder::Neon32));
    assert!(SimdIsa::Neon32.supports(BulkEncoder::Neon32));
    assert!(SimdIsa::Scalar.supports(BulkEncoder::Scalar));
    assert!(SimdIsa::Avx2.supports(BulkEncoder::Scalar));
}
