use smb_server::proto::crypto::compression::{
    COMPRESSION_FLAG_CHAINED, COMPRESSION_MAGIC, CompressionError, SMB2_MAGIC,
    compress_lz77_transform, compress_pattern_transform, decompress_transform,
};
use smb_server::proto::crypto::lz77::{compress_xpress_lz77, decompress_xpress_lz77};
use smb_server::proto::messages::CompressionCapabilities;

#[test]
fn decompress_xpress_lz77_known_literal_vector() {
    let compressed = [
        0x3f, 0x00, 0x00, 0x00, b'a', b'b', b'c', b'd', b'e', b'f', b'g', b'h', b'i', b'j',
        b'k', b'l', b'm', b'n', b'o', b'p', b'q', b'r', b's', b't', b'u', b'v', b'w', b'x',
        b'y', b'z',
    ];
    let got = decompress_xpress_lz77(&compressed, 26).expect("decompress");
    assert_eq!(got, b"abcdefghijklmnopqrstuvwxyz");
}

#[test]
fn compress_decompress_xpress_lz77_round_trip() {
    let plain = b"The quick brown fox jumps over the lazy dog. ".repeat(64);
    let compressed = compress_xpress_lz77(&plain);
    assert!(compressed.len() < plain.len());
    let got = decompress_xpress_lz77(&compressed, plain.len()).expect("decompress");
    assert_eq!(got, plain);
}

#[test]
fn decompress_xpress_lz77_rejects_oversize() {
    let plain = b"abcabcabc".repeat(16);
    let compressed = compress_xpress_lz77(&plain);
    assert!(decompress_xpress_lz77(&compressed, plain.len() - 1).is_err());
}

#[test]
fn compress_decompress_chained_pattern_transform() {
    let mut plain = SMB2_MAGIC.to_vec();
    plain.extend(std::iter::repeat_n(0xFE, 128));
    let compressed = compress_pattern_transform(&plain).expect("compressed");
    assert_eq!(&compressed[..4], &COMPRESSION_MAGIC);
    assert_eq!(
        u16::from_le_bytes(compressed[8..10].try_into().unwrap()),
        CompressionCapabilities::ALGORITHM_NONE
    );
    assert_eq!(
        u16::from_le_bytes(compressed[20..22].try_into().unwrap()),
        CompressionCapabilities::ALGORITHM_PATTERN_V1
    );
    assert_eq!(
        u32::from_le_bytes(compressed[24..28].try_into().unwrap()),
        8
    );
    let got = decompress_transform(
        &compressed,
        &[CompressionCapabilities::ALGORITHM_PATTERN_V1],
        1 << 20,
    )
    .expect("decompress");
    assert_eq!(got, plain);
}

#[test]
fn decompress_chained_none_and_pattern() {
    let mut plain = SMB2_MAGIC.to_vec();
    plain.extend(std::iter::repeat_n(0x20, 64));
    let mut frame = Vec::new();
    frame.extend_from_slice(&COMPRESSION_MAGIC);
    frame.extend_from_slice(&(plain.len() as u32).to_le_bytes());
    frame.extend_from_slice(&CompressionCapabilities::ALGORITHM_NONE.to_le_bytes());
    frame.extend_from_slice(&COMPRESSION_FLAG_CHAINED.to_le_bytes());
    frame.extend_from_slice(&4u32.to_le_bytes());
    frame.extend_from_slice(&SMB2_MAGIC);
    frame.extend_from_slice(&CompressionCapabilities::ALGORITHM_PATTERN_V1.to_le_bytes());
    frame.extend_from_slice(&0u16.to_le_bytes());
    frame.extend_from_slice(&8u32.to_le_bytes());
    frame.extend_from_slice(&[0x20, 0, 0, 0]);
    frame.extend_from_slice(&64u32.to_le_bytes());
    let got = decompress_transform(
        &frame,
        &[CompressionCapabilities::ALGORITHM_PATTERN_V1],
        1 << 20,
    )
    .expect("decompress");
    assert_eq!(got, plain);
}

#[test]
fn compress_decompress_lz77_transform() {
    let mut plain = SMB2_MAGIC.to_vec();
    plain.extend(b"hello hello hello hello ".repeat(64));
    let compressed = compress_lz77_transform(&plain).expect("compressed");
    assert_eq!(&compressed[..4], &COMPRESSION_MAGIC);
    assert_eq!(
        u16::from_le_bytes(compressed[8..10].try_into().unwrap()),
        CompressionCapabilities::ALGORITHM_LZ77
    );
    let got = decompress_transform(
        &compressed,
        &[CompressionCapabilities::ALGORITHM_LZ77],
        1 << 20,
    )
    .expect("decompress");
    assert_eq!(got, plain);
}

#[test]
fn decompress_chained_lz77_payload() {
    let mut plain = SMB2_MAGIC.to_vec();
    plain.extend(b"abcabcabcabc".repeat(20));
    let compressed = compress_xpress_lz77(&plain);
    let mut frame = Vec::new();
    frame.extend_from_slice(&COMPRESSION_MAGIC);
    frame.extend_from_slice(&(plain.len() as u32).to_le_bytes());
    frame.extend_from_slice(&CompressionCapabilities::ALGORITHM_LZ77.to_le_bytes());
    frame.extend_from_slice(&COMPRESSION_FLAG_CHAINED.to_le_bytes());
    frame.extend_from_slice(&((4 + compressed.len()) as u32).to_le_bytes());
    frame.extend_from_slice(&(plain.len() as u32).to_le_bytes());
    frame.extend_from_slice(&compressed);
    let got = decompress_transform(&frame, &[CompressionCapabilities::ALGORITHM_LZ77], 1 << 20)
        .expect("decompress");
    assert_eq!(got, plain);
}

#[test]
fn decompress_rejects_unsupported_algorithm() {
    let mut frame = vec![0; 24];
    frame[..4].copy_from_slice(&COMPRESSION_MAGIC);
    frame[4..8].copy_from_slice(&64u32.to_le_bytes());
    frame[8..10].copy_from_slice(&CompressionCapabilities::ALGORITHM_LZ77.to_le_bytes());
    assert_eq!(
        decompress_transform(
            &frame,
            &[CompressionCapabilities::ALGORITHM_PATTERN_V1],
            1 << 20
        )
        .unwrap_err(),
        CompressionError::Unsupported
    );
}
