//! Header parsing and frame-size limits.

use kdb_codec::codec::{CompressionMode, KdbCodec, MessageHeader, ValidationMode};

#[test]
fn test_message_header_parsing() {
    let header_bytes = [
        0x01, // encoding: little endian
        0x02, // message_type: response
        0x01, // compressed: yes
        0x00, // reserved
        0x64, 0x00, 0x00, 0x00, // length: 100 bytes
    ];

    let header = MessageHeader::from_bytes(&header_bytes).unwrap();

    assert_eq!(header.encoding, 1);
    assert_eq!(header.message_type, 2);
    assert_eq!(header.compressed, 1);
    assert_eq!(header.length, 100);
}

#[test]
fn test_message_header_big_endian() {
    let header_bytes = [
        0x00, // encoding: big endian
        0x01, // message_type: sync
        0x00, // compressed: no
        0x00, // reserved
        0x00, 0x00, 0x01, 0x00, // length: 256 bytes (big endian)
    ];

    let header = MessageHeader::from_bytes(&header_bytes).unwrap();

    assert_eq!(header.encoding, 0);
    assert_eq!(header.length, 256);
}

#[test]
fn security_header_validation_test_message_header_roundtrip() {
    let original = MessageHeader {
        encoding: 1,
        message_type: 1,
        compressed: 1,
        _unused: 0,
        length: 12345,
    };

    let bytes = original.to_bytes();
    let parsed = MessageHeader::from_bytes(&bytes).unwrap();

    assert_eq!(parsed.encoding, original.encoding);
    assert_eq!(parsed.message_type, original.message_type);
    assert_eq!(parsed.compressed, original.compressed);
    assert_eq!(parsed.length, original.length);
}

#[test]
fn test_header_insufficient_bytes() {
    let short_buffer = [0x01, 0x02, 0x03];

    let result = MessageHeader::from_bytes(&short_buffer);
    assert!(result.is_err(), "Should reject insufficient header bytes");
}

#[test]
fn test_incomplete_message_buffer() {
    // a complete header declaring 92 more bytes than are present
    let codec = KdbCodec::builder()
        .is_local(false)
        .compression_mode(CompressionMode::Never)
        .validation_mode(ValidationMode::Strict)
        .build();
    let mut buffer = Vec::new();
    buffer.extend_from_slice(&[0x01, 0x01, 0x00, 0x00]);
    buffer.extend_from_slice(&100u32.to_le_bytes());
    buffer.extend_from_slice(&[0x00; 4]); // only 4 of the 92 payload bytes

    let result = codec.decode_frame(&buffer);
    assert!(result.is_ok(), "Should not error on incomplete message");
    assert!(result.unwrap().is_none());
}

fn strict_codec() -> KdbCodec {
    KdbCodec::builder()
        .is_local(false)
        .compression_mode(CompressionMode::Never)
        .validation_mode(ValidationMode::Strict)
        .build()
}

#[test]
fn test_reject_oversized_message_header() {
    // a header claiming 4 GiB
    let codec = strict_codec();
    let mut buffer = Vec::new();
    buffer.extend_from_slice(&[0x01, 0x01, 0x00, 0x00, 0xFF, 0xFF, 0xFF, 0xFF]);

    let result = codec.decode_frame(&buffer);
    println!("Result: {:?}", result.is_err());
    assert!(result.is_err());
}

#[test]
fn test_reject_message_size_2gb() {
    let codec = strict_codec();
    let mut buffer = Vec::new();
    buffer.extend_from_slice(&[0x01, 0x01, 0x00, 0x00, 0x00, 0x00, 0x00, 0x80]);

    let result = codec.decode_frame(&buffer);
    println!("2GB message result: {:?}", result.is_err());
    assert!(result.is_err());
}

#[test]
fn test_reject_message_size_below_header_size() {
    let codec = strict_codec();
    let mut buffer = Vec::new();
    buffer.extend_from_slice(&[0x01, 0x01, 0x00, 0x00, 0x04, 0x00, 0x00, 0x00]);

    let result = codec.decode_frame(&buffer);
    println!("Undersized message result: {:?}", result.is_err());
    assert!(result.is_err());
}

#[test]
fn test_accept_reasonable_message_size() {
    let codec = strict_codec();
    let mut buffer = Vec::new();
    buffer.extend_from_slice(&[0x01, 0x01, 0x00, 0x00]);
    buffer.extend_from_slice(&(1024u32 * 1024).to_le_bytes());

    // only the header has arrived: need more data
    let result = codec.decode_frame(&buffer);
    assert!(result.is_ok());
    assert!(result.unwrap().is_none());
}

#[test]
fn test_maximum_message_size_boundary() {
    // 100 MiB is under the default 256 MiB ceiling
    let codec = strict_codec();
    let mut buffer = Vec::new();
    buffer.extend_from_slice(&[0x01, 0x01, 0x00, 0x00]);
    buffer.extend_from_slice(&(100u32 * 1024 * 1024).to_le_bytes());

    let result = codec.decode_frame(&buffer);
    println!("100MB message result: {:?}", result.is_ok());
    assert!(result.is_ok());
    assert!(result.unwrap().is_none());
}

#[test]
fn test_zero_message_size() {
    let codec = strict_codec();
    let mut buffer = Vec::new();
    buffer.extend_from_slice(&[0x01, 0x01, 0x00, 0x00, 0x00, 0x00, 0x00, 0x00]);

    let result = codec.decode_frame(&buffer);
    println!("Zero size message result: {:?}", result.is_err());
    assert!(result.is_err());
}
