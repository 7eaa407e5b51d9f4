//! Frame codec behavior: compression policy, validation policy, builders
//! and the direct compress/decompress pair.

use kdb_codec::codec::{compress_sync, decompress_sync, CompressionMode, KdbCodec, KdbMessage,
    MessageHeader, ValidationMode};
use kdb_codec::serialize::ENCODING;
use kdb_codec::{qattribute, qmsg_type, K};

fn read_u32(bytes: &[u8]) -> u32 {
    match ENCODING {
        0 => u32::from_be_bytes(bytes.try_into().unwrap()),
        _ => u32::from_le_bytes(bytes.try_into().unwrap()),
    }
}

#[test]
fn codec_test_compress_decompress_roundtrip() {
    // A large repetitive long list must compress on a remote connection and
    // decode back to the same values.
    let large_list = K::new_long_list(vec![1; 3000], qattribute::NONE);
    let message = KdbMessage::new(1, large_list);

    let codec = KdbCodec::new(false);
    let buffer = codec.encode_message(&message);
    assert!(buffer.len() > 0);

    let decoded = codec.decode_frame(&buffer).unwrap();
    assert!(decoded.is_some());

    let (response, consumed) = decoded.unwrap();
    assert_eq!(consumed, buffer.len());
    assert_eq!(response.message_type, 1);

    let decoded_list = response.payload.as_vec_long().unwrap();
    assert_eq!(decoded_list.len(), 3000);
    assert_eq!(decoded_list[0], 1);
}

#[test]
fn codec_test_small_message_no_compression() {
    let small_list = K::new_long_list(vec![1, 2, 3, 4, 5], qattribute::NONE);
    let message = KdbMessage::new(1, small_list);

    let codec = KdbCodec::new(false);
    let buffer = codec.encode_message(&message);

    assert_eq!(buffer[2], 0); // compressed flag at byte 2

    let decoded = codec.decode_frame(&buffer).unwrap();
    assert!(decoded.is_some());

    let (response, _) = decoded.unwrap();
    let decoded_list = response.payload.as_vec_long().unwrap();
    assert_eq!(*decoded_list, vec![1, 2, 3, 4, 5]);
}

#[test]
fn codec_test_local_connection_no_compression() {
    let large_list = K::new_long_list(vec![42; 3000], qattribute::NONE);
    let message = KdbMessage::new(1, large_list);

    let codec = KdbCodec::new(true); // local connection
    let buffer = codec.encode_message(&message);

    assert_eq!(buffer[2], 0); // not compressed even though large

    let decoded = codec.decode_frame(&buffer).unwrap();
    assert!(decoded.is_some());

    let (response, _) = decoded.unwrap();
    let decoded_list = response.payload.as_vec_long().unwrap();
    assert_eq!(decoded_list.len(), 3000);
    assert_eq!(decoded_list[0], 42);
}

#[test]
fn codec_test_string_query_encoding() {
    let codec = KdbCodec::new(true);

    let query = K::new_string("1+1".to_string(), qattribute::NONE);
    let message = KdbMessage::new(qmsg_type::synchronous, query);

    let buffer = codec.encode_message(&message);

    assert!(buffer.len() > MessageHeader::size());
    assert_eq!(buffer[1], qmsg_type::synchronous);
    assert_eq!(buffer[2], 0);
}

#[test]
fn codec_test_message_header_roundtrip() {
    let header = MessageHeader {
        encoding: ENCODING,
        message_type: 1,
        compressed: 1,
        _unused: 0,
        length: 1234,
    };

    let bytes = header.to_bytes();
    let parsed = MessageHeader::from_bytes(&bytes).unwrap();

    assert_eq!(parsed.encoding, header.encoding);
    assert_eq!(parsed.message_type, header.message_type);
    assert_eq!(parsed.compressed, header.compressed);
    assert_eq!(parsed.length, header.length);
}

#[test]
fn test_compress_decompress_direct() {
    // Large enough, repetitive data must compress; the 12-byte prefix names
    // the compressed and original sizes.
    let payload = vec![42u8; 2000];
    let mut raw = Vec::new();
    raw.extend_from_slice(&[ENCODING, 1, 0, 0, 0, 0, 0, 0]);
    raw.extend_from_slice(&payload);

    let original_size = raw.len();

    let (was_compressed, compressed_data) = compress_sync(raw.clone());

    println!("Original size: {}", original_size);
    println!("Compressed data size: {}", compressed_data.len());
    println!("Was compressed: {}", was_compressed);

    assert!(was_compressed, "Large repetitive data should compress");

    assert_eq!(compressed_data[0], ENCODING);
    assert_eq!(compressed_data[1], 1); // message type
    assert_eq!(compressed_data[2], 1); // compressed flag

    let compressed_size = read_u32(&compressed_data[4..8]);
    assert_eq!(compressed_size as usize, compressed_data.len());

    let uncompressed_size = read_u32(&compressed_data[8..12]);
    assert_eq!(uncompressed_size as usize, original_size);

    // the decoder removes the 8-byte header before decompressing
    let payload_data = &compressed_data[8..];
    let decompressed = decompress_sync(payload_data.to_vec(), ENCODING, None).unwrap();

    assert_eq!(decompressed, payload, "Decompressed payload should match original");
}

#[test]
fn test_compression_with_large_data() {
    let large_payload = vec![42u8; 3000];
    let mut raw = Vec::new();
    raw.extend_from_slice(&[ENCODING, 1, 0, 0, 0, 0, 0, 0]);
    raw.extend_from_slice(&large_payload);

    let original_size = raw.len();

    let (was_compressed, compressed_data) = compress_sync(raw);

    assert!(was_compressed, "Large repetitive data should compress");
    assert!(
        compressed_data.len() < original_size,
        "Compressed size {} should be less than original size {}",
        compressed_data.len(),
        original_size
    );

    let payload_data = &compressed_data[8..];
    let decompressed = decompress_sync(payload_data.to_vec(), ENCODING, None).unwrap();

    assert_eq!(decompressed, large_payload);
}

#[test]
fn test_codec_with_compression_end_to_end() {
    let large_list = K::new_long_list(vec![123; 2500], qattribute::NONE);
    let message = KdbMessage::new(qmsg_type::synchronous, large_list);

    let codec = KdbCodec::new(false);
    let buffer = codec.encode_message(&message);

    let header = MessageHeader::from_bytes(&buffer[..8]).unwrap();
    assert_eq!(header.compressed, 1, "Large message should be compressed");

    let decoded = codec.decode_frame(&buffer).unwrap();
    assert!(decoded.is_some());

    let (response, _) = decoded.unwrap();
    assert_eq!(response.message_type, qmsg_type::synchronous);

    let decoded_list = response.payload.as_vec_long().unwrap();
    assert_eq!(decoded_list.len(), 2500);
    assert_eq!(decoded_list[0], 123);
    assert_eq!(decoded_list[2499], 123);
}

#[test]
fn test_compression_mode_never() {
    let large_list = K::new_long_list(vec![42; 3000], qattribute::NONE);
    let message = KdbMessage::new(qmsg_type::synchronous, large_list);

    let codec = KdbCodec::with_options(false, CompressionMode::Never, ValidationMode::Strict);
    let buffer = codec.encode_message(&message);

    let header = MessageHeader::from_bytes(&buffer[..8]).unwrap();
    assert_eq!(header.compressed, 0, "Never mode should not compress");
}

#[test]
fn test_compression_mode_always() {
    let large_list = K::new_long_list(vec![42; 3000], qattribute::NONE);
    let message = KdbMessage::new(qmsg_type::synchronous, large_list);

    let codec = KdbCodec::with_options(true, CompressionMode::Always, ValidationMode::Strict);
    let buffer = codec.encode_message(&message);

    let header = MessageHeader::from_bytes(&buffer[..8]).unwrap();
    assert_eq!(header.compressed, 1, "Always mode should compress even on local");
}

#[test]
fn test_compression_mode_auto_local() {
    let large_list = K::new_long_list(vec![42; 3000], qattribute::NONE);
    let message = KdbMessage::new(qmsg_type::synchronous, large_list);

    let codec = KdbCodec::with_options(true, CompressionMode::Auto, ValidationMode::Strict);
    let buffer = codec.encode_message(&message);

    let header = MessageHeader::from_bytes(&buffer[..8]).unwrap();
    assert_eq!(header.compressed, 0, "Auto mode should not compress local connections");
}

#[test]
fn test_compression_mode_auto_remote() {
    let large_list = K::new_long_list(vec![42; 3000], qattribute::NONE);
    let message = KdbMessage::new(qmsg_type::synchronous, large_list);

    let codec = KdbCodec::with_options(false, CompressionMode::Auto, ValidationMode::Strict);
    let buffer = codec.encode_message(&message);

    let header = MessageHeader::from_bytes(&buffer[..8]).unwrap();
    assert_eq!(header.compressed, 1, "Auto mode should compress remote large messages");
}

#[test]
fn test_validation_mode_strict_invalid_compressed() {
    let codec = KdbCodec::with_options(false, CompressionMode::Never, ValidationMode::Strict);

    let mut buffer = Vec::new();
    buffer.extend_from_slice(&[ENCODING, 1, 2, 0]); // compressed = 2 (invalid)
    buffer.extend_from_slice(&[20, 0, 0, 0]); // length = 20
    buffer.extend_from_slice(&[0; 12]); // dummy payload

    let result = codec.decode_frame(&buffer);
    assert!(result.is_err(), "Strict mode should reject invalid compressed flag");
    let err = result.unwrap_err();
    assert!(
        err.message().contains("Invalid compressed flag"),
        "Error message should mention compressed flag, got: {}",
        err.message()
    );
}

#[test]
fn test_validation_mode_strict_invalid_message_type() {
    let codec = KdbCodec::with_options(false, CompressionMode::Never, ValidationMode::Strict);

    let mut buffer = Vec::new();
    buffer.extend_from_slice(&[ENCODING, 3, 0, 0]); // message_type = 3 (invalid)
    buffer.extend_from_slice(&[20, 0, 0, 0]); // length = 20
    buffer.extend_from_slice(&[0; 12]); // dummy payload

    let result = codec.decode_frame(&buffer);
    assert!(result.is_err(), "Strict mode should reject invalid message type");
    let err = result.unwrap_err();
    assert!(
        err.message().contains("Invalid message type"),
        "Error message should mention message type, got: {}",
        err.message()
    );
}

#[test]
fn test_validation_mode_lenient_accepts_invalid() {
    let codec = KdbCodec::with_options(false, CompressionMode::Never, ValidationMode::Lenient);

    let small_int = K::new_int(42);
    let payload_bytes = small_int.q_ipc_encode();
    let total_length = (8 + payload_bytes.len()) as u32;

    let mut buffer = Vec::new();
    buffer.extend_from_slice(&[ENCODING, 5, 3, 0]); // message_type = 5, compressed = 3
    let length_bytes = match ENCODING {
        0 => total_length.to_be_bytes(),
        _ => total_length.to_le_bytes(),
    };
    buffer.extend_from_slice(&length_bytes);
    buffer.extend_from_slice(&payload_bytes);

    let result = codec.decode_frame(&buffer);
    assert!(result.is_ok(), "Lenient mode should accept non-standard values");
    assert!(result.unwrap().is_some(), "Should decode message successfully");
}

#[test]
fn test_codec_getters_setters() {
    let mut codec = KdbCodec::new(false);

    assert_eq!(codec.compression_mode(), CompressionMode::Auto);
    assert_eq!(codec.validation_mode(), ValidationMode::Strict);

    codec.set_compression_mode(CompressionMode::Always);
    codec.set_validation_mode(ValidationMode::Lenient);

    assert_eq!(codec.compression_mode(), CompressionMode::Always);
    assert_eq!(codec.validation_mode(), ValidationMode::Lenient);
}

#[test]
fn test_compression_mode_small_message() {
    let small_int = K::new_int(42);
    let message = KdbMessage::new(qmsg_type::synchronous, small_int);

    let codec = KdbCodec::with_options(false, CompressionMode::Always, ValidationMode::Strict);
    let buffer = codec.encode_message(&message);

    let header = MessageHeader::from_bytes(&buffer[..8]).unwrap();
    assert_eq!(header.compressed, 0, "Small messages should not be compressed");
}

#[test]
fn test_codec_builder_pattern() {
    let codec = KdbCodec::builder()
        .is_local(false)
        .compression_mode(CompressionMode::Always)
        .validation_mode(ValidationMode::Lenient)
        .build();

    assert_eq!(codec.compression_mode(), CompressionMode::Always);
    assert_eq!(codec.validation_mode(), ValidationMode::Lenient);
}

#[test]
fn test_codec_builder_with_defaults() {
    let codec = KdbCodec::builder().build();

    assert_eq!(codec.compression_mode(), CompressionMode::Auto);
    assert_eq!(codec.validation_mode(), ValidationMode::Strict);
}

#[test]
fn test_codec_builder_partial() {
    let codec = KdbCodec::builder().compression_mode(CompressionMode::Never).build();

    assert_eq!(codec.compression_mode(), CompressionMode::Never);
    assert_eq!(codec.validation_mode(), ValidationMode::Strict);
}
