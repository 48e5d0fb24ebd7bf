use codecflow::oneshot::{decode_all, encode_all, round_trip};
use codecflow::{Error, Format, Level};
use std::io::Read;

fn formats() -> Vec<Format> {
    vec![Format::Deflate, Format::Zlib, Format::Gzip]
}

/// A small deterministic byte generator for large payloads.
fn pseudo_random(len: usize) -> Vec<u8> {
    let mut state: u64 = 0x2545F4914F6CDD1D;
    let mut out = Vec::with_capacity(len);
    for _ in 0..len {
        state = state.wrapping_mul(6364136223846793005).wrapping_add(1442695040888963407);
        out.push((state >> 33) as u8);
    }
    out
}

#[test]
fn empty_input_round_trips() {
    for fmt in formats() {
        let coded = encode_all(fmt, Level::Fastest, &[]).unwrap();
        assert!(!coded.is_empty(), "even an empty stream has framing");
        let plain = decode_all(fmt, &coded).unwrap();
        assert_eq!(plain, Vec::<u8>::new());
    }
}

#[test]
fn short_input_round_trips() {
    for fmt in formats() {
        let coded = encode_all(fmt, Level::Fastest, &[1, 2, 3, 4, 5, 6]).unwrap();
        let plain = decode_all(fmt, &coded).unwrap();
        assert_eq!(plain, vec![1, 2, 3, 4, 5, 6]);
    }
}

#[test]
fn large_input_round_trips() {
    let input = pseudo_random(65_536);
    for fmt in formats() {
        let coded = encode_all(fmt, Level::Default, &input).unwrap();
        let plain = decode_all(fmt, &coded).unwrap();
        assert_eq!(plain, input);
    }
}

#[test]
fn round_trip_returns_its_input() {
    let input = pseudo_random(4096);
    for fmt in formats() {
        let back = round_trip(fmt, Level::Best, &input).unwrap();
        assert_eq!(back, input);
    }
}

#[test]
fn zeros_round_trip() {
    for fmt in formats() {
        let coded = encode_all(fmt, Level::Fastest, &[0; 10]).unwrap();
        let plain = decode_all(fmt, &coded).unwrap();
        assert_eq!(plain, vec![0; 10]);
    }
}

#[test]
fn zlib_output_is_readable_by_flate2() {
    let input = pseudo_random(20_000);
    let coded = encode_all(Format::Zlib, Level::Default, &input).unwrap();
    let mut decoder = flate2::read::ZlibDecoder::new(coded.as_slice());
    let mut plain = Vec::new();
    decoder.read_to_end(&mut plain).unwrap();
    assert_eq!(plain, input);
}

#[test]
fn gzip_output_is_readable_by_flate2() {
    let input = pseudo_random(20_000);
    let coded = encode_all(Format::Gzip, Level::Fastest, &input).unwrap();
    let mut decoder = flate2::read::GzDecoder::new(coded.as_slice());
    let mut plain = Vec::new();
    decoder.read_to_end(&mut plain).unwrap();
    assert_eq!(plain, input);
}

#[test]
fn deflate_output_is_readable_by_flate2() {
    let input = pseudo_random(20_000);
    let coded = encode_all(Format::Deflate, Level::Best, &input).unwrap();
    let mut decoder = flate2::read::DeflateDecoder::new(coded.as_slice());
    let mut plain = Vec::new();
    decoder.read_to_end(&mut plain).unwrap();
    assert_eq!(plain, input);
}

#[test]
fn flate2_output_is_decodable() {
    let input = pseudo_random(20_000);
    let mut encoder =
        flate2::read::ZlibEncoder::new(input.as_slice(), flate2::Compression::fast());
    let mut coded = Vec::new();
    encoder.read_to_end(&mut coded).unwrap();
    let plain = decode_all(Format::Zlib, &coded).unwrap();
    assert_eq!(plain, input);
}

#[test]
fn corrupt_input_is_reported() {
    let garbage: Vec<u8> = vec![0xde, 0xad, 0xbe, 0xef, 0x01, 0x02, 0x03, 0x04];
    assert_eq!(decode_all(Format::Zlib, &garbage), Err(Error::CorruptInput));
}

#[test]
fn truncated_input_is_reported() {
    let input = pseudo_random(4096);
    let coded = encode_all(Format::Zlib, Level::Default, &input).unwrap();
    let cut = &coded[..coded.len() / 2];
    assert_eq!(decode_all(Format::Zlib, cut), Err(Error::UnexpectedEof));
}

#[test]
fn trailing_bytes_are_ignored() {
    let input = vec![9, 8, 7, 6, 5];
    let mut coded = encode_all(Format::Zlib, Level::Default, &input).unwrap();
    coded.extend_from_slice(&[0xaa, 0xbb, 0xcc]);
    let plain = decode_all(Format::Zlib, &coded).unwrap();
    assert_eq!(plain, input);
}

#[test]
fn invalid_level_is_rejected() {
    assert_eq!(
        encode_all(Format::Zlib, Level::Precise(10), &[1, 2, 3]),
        Err(Error::InvalidLevel)
    );
    assert!(encode_all(Format::Zlib, Level::Precise(9), &[1, 2, 3]).is_ok());
    assert!(encode_all(Format::Zlib, Level::Precise(0), &[1, 2, 3]).is_ok());
}

#[test]
fn level_presets_map_to_backend_levels() {
    assert_eq!(Level::Fastest.value(), 1);
    assert_eq!(Level::Default.value(), 6);
    assert_eq!(Level::Best.value(), 9);
    assert_eq!(Level::Precise(4).value(), 4);
}
