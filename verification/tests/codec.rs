use uabo::decompress::{check_size, decompress_chunk};
use uabo::digest::{content_digest, hex_upper};
use uabo::error::DecodeError;

fn sample() -> Vec<u8> {
    let mut v = Vec::new();
    for i in 0..600u32 {
        v.push((i % 7) as u8);
        v.push(b'a' + (i % 3) as u8);
    }
    v
}

#[test]
fn store_codec_passes_bytes_through() {
    assert_eq!(decompress_chunk(b"hello", 5, 0), Ok(b"hello".to_vec()));
    assert_eq!(decompress_chunk(b"", 0, 0), Ok(vec![]));
}

#[test]
fn codec_is_low_six_bits() {
    assert_eq!(decompress_chunk(b"hello", 5, 0x40), Ok(b"hello".to_vec()));
    assert_eq!(decompress_chunk(b"hello", 5, 0x80), Ok(b"hello".to_vec()));
    assert_eq!(decompress_chunk(b"hello", 5, 0xffff_ffc0), Ok(b"hello".to_vec()));
    assert_eq!(decompress_chunk(&[0x50, b'h', b'e', b'l', b'l', b'o'], 5, 0x43), Ok(b"hello".to_vec()));
}

#[test]
fn store_codec_checks_declared_size() {
    assert_eq!(decompress_chunk(b"hello", 4, 0), Err(DecodeError::Decompression));
    assert_eq!(decompress_chunk(b"hello", 6, 0), Err(DecodeError::Decompression));
    assert_eq!(decompress_chunk(b"hello", -5, 0), Err(DecodeError::Decompression));
    assert_eq!(decompress_chunk(b"", -1, 0), Err(DecodeError::Decompression));
}

#[test]
fn unsupported_codec_is_refused() {
    assert_eq!(decompress_chunk(b"hello", 5, 4), Err(DecodeError::UnsupportedCodec));
    assert_eq!(decompress_chunk(b"hello", 5, 0x3f), Err(DecodeError::UnsupportedCodec));
    assert_eq!(decompress_chunk(b"hello", 5, 0x44), Err(DecodeError::UnsupportedCodec));
    assert_eq!(decompress_chunk(b"", 0, 5), Err(DecodeError::UnsupportedCodec));
}

#[test]
fn lz4_literal_block() {
    let block = [0x50u8, b'h', b'e', b'l', b'l', b'o'];
    assert_eq!(decompress_chunk(&block, 5, 2), Ok(b"hello".to_vec()));
    assert_eq!(decompress_chunk(&block, 5, 3), Ok(b"hello".to_vec()));
}

#[test]
fn lz4_round_trip() {
    let data = sample();
    let packed = lz4::block::compress(&data, None, false).unwrap();
    assert!(packed.len() < data.len());
    assert_eq!(decompress_chunk(&packed, data.len() as i32, 2), Ok(data.clone()));
    assert_eq!(decompress_chunk(&packed, data.len() as i32, 3), Ok(data));
}

#[test]
fn lz4_size_mismatch_fails() {
    let data = sample();
    let packed = lz4::block::compress(&data, None, false).unwrap();
    assert_eq!(decompress_chunk(&packed, data.len() as i32 + 1, 2), Err(DecodeError::Decompression));
    assert_eq!(decompress_chunk(&packed, data.len() as i32 - 1, 2), Err(DecodeError::Decompression));
    assert_eq!(decompress_chunk(&packed, -1, 2), Err(DecodeError::Decompression));
}

#[test]
fn lz4_corrupt_block_fails() {
    let block = [0xf0u8, 0x01];
    assert_eq!(decompress_chunk(&block, 5, 2), Err(DecodeError::Decompression));
}

#[test]
fn lzma_round_trip() {
    let data = sample();
    let packed = lzma::compress(&data, 6).unwrap();
    assert!(packed.len() < data.len());
    assert_eq!(decompress_chunk(&packed, data.len() as i32, 1), Ok(data));
}

#[test]
fn lzma_size_mismatch_fails() {
    let data = sample();
    let packed = lzma::compress(&data, 6).unwrap();
    assert_eq!(decompress_chunk(&packed, data.len() as i32 + 1, 1), Err(DecodeError::Decompression));
}

#[test]
fn lzma_corrupt_stream_fails() {
    assert_eq!(decompress_chunk(b"not an lzma stream", 5, 1), Err(DecodeError::Decompression));
    let mut packed = lzma::compress(&sample(), 6).unwrap();
    packed.truncate(packed.len() / 2);
    assert_eq!(decompress_chunk(&packed, 1200, 1), Err(DecodeError::Decompression));
}

#[test]
fn check_size_accepts_exact_length_only() {
    assert_eq!(check_size(Some(vec![1, 2, 3]), 3), Ok(vec![1, 2, 3]));
    assert_eq!(check_size(Some(vec![]), 0), Ok(vec![]));
    assert_eq!(check_size(Some(vec![1, 2, 3]), 2), Err(DecodeError::Decompression));
    assert_eq!(check_size(Some(vec![1, 2, 3]), 4), Err(DecodeError::Decompression));
    assert_eq!(check_size(Some(vec![]), -1), Err(DecodeError::Decompression));
    assert_eq!(check_size(None, 0), Err(DecodeError::Decompression));
}

#[test]
fn hex_is_upper_case_pairs() {
    assert_eq!(hex_upper(&[0x00, 0x0f, 0xa5, 0xff]), "000FA5FF");
    assert_eq!(hex_upper(&[0x12, 0x34, 0x56, 0x78, 0x9a, 0xbc, 0xde, 0xf0]), "123456789ABCDEF0");
    assert_eq!(hex_upper(&[]), "");
    assert_eq!(hex_upper(&[0x0a]), "0A");
}

#[test]
fn digest_of_empty_input() {
    assert_eq!(
        content_digest(b""),
        "AF1349B9F5F9A1A6A0404DEA36DCC9499BCB25C9ADC112B7CC9A93CAE41F3262"
    );
}

#[test]
fn digest_matches_blake3() {
    let data = sample();
    let expected = blake3::hash(&data).to_hex().to_string().to_uppercase();
    let digest = content_digest(&data);
    assert_eq!(digest, expected);
    assert_eq!(digest.len(), 64);
    assert_ne!(digest, hex_upper(&data));
    assert_ne!(content_digest(b"abc"), content_digest(b"abd"));
}
