//! End-to-end behavior across serializer, compression and frame codec.

use kdb_codec::codec::{CompressionMode, KdbCodec, KdbMessage, ValidationMode};
use kdb_codec::{qattribute, qmsg_type, K};

#[test]
fn test_malformed_compressed_message() {
    // compressed flag set but the payload is garbage
    let codec = KdbCodec::new(false);
    let mut buffer = Vec::new();
    buffer.extend_from_slice(&[0x01, 0x01, 0x01, 0x00]);
    buffer.extend_from_slice(&16u32.to_le_bytes());
    buffer.extend_from_slice(&[0xAA; 8]);

    println!("Testing malformed compressed message...");
    let result = codec.decode_frame(&buffer);
    println!("Malformed compressed result: {:?}", result.is_err());
}

#[test]
fn test_valid_compression_then_valid_decompression() {
    let large_list = K::new_long_list(vec![42; 3000], qattribute::NONE);
    let message = KdbMessage::new(qmsg_type::synchronous, large_list);

    let codec = KdbCodec::new(false);
    let buffer = codec.encode_message(&message);
    println!("Message compressed: {}", buffer[2] == 1);

    let decoded = codec.decode_frame(&buffer).expect("Decoding should succeed");
    let (response, _) = decoded.unwrap();
    let list = response.payload.as_vec_long().unwrap();
    assert_eq!(list.len(), 3000);
    assert!(list.iter().all(|&v| v == 42));
}

#[test]
fn test_mixed_valid_and_invalid_messages() {
    let codec = KdbCodec::new(true);

    // first a valid frame
    let m1 = KdbMessage::new(qmsg_type::asynchronous, K::new_long(100));
    let f1 = codec.encode_message(&m1);
    let (r1, consumed) = codec.decode_frame(&f1).unwrap().unwrap();
    assert_eq!(r1.payload.get_long().unwrap(), 100);
    assert_eq!(consumed, f1.len());

    // then a frame with an invalid compressed flag in strict mode
    let mut bad = Vec::new();
    bad.extend_from_slice(&[0x01, 0x01, 0x02, 0x00]);
    bad.extend_from_slice(&12u32.to_le_bytes());
    bad.extend_from_slice(&[0x00; 4]);
    assert!(codec.decode_frame(&bad).is_err(), "Second message should be rejected");
}

#[test]
fn test_codec_state_after_error() {
    // the codec holds no decode state: after a rejected frame it decodes a
    // valid one
    let codec = KdbCodec::new(true);

    let mut bad = Vec::new();
    bad.extend_from_slice(&[0x01, 0x07, 0x00, 0x00]);
    bad.extend_from_slice(&12u32.to_le_bytes());
    bad.extend_from_slice(&[0x00; 4]);
    assert!(codec.decode_frame(&bad).is_err());

    let good = codec.encode_message(&KdbMessage::new(qmsg_type::asynchronous, K::new_long(42)));
    let (msg, _) = codec
        .decode_frame(&good)
        .expect("Should recover and decode valid message")
        .unwrap();
    assert_eq!(msg.payload.get_long().unwrap(), 42);
}

#[test]
fn test_large_but_valid_message() {
    let big = K::new_byte_list(vec![7u8; 1000000], qattribute::NONE);
    let message = KdbMessage::new(qmsg_type::asynchronous, big);

    let codec = KdbCodec::with_options(true, CompressionMode::Never, ValidationMode::Strict);
    let buffer = codec.encode_message(&message);
    println!("Encoded large message: {} bytes", buffer.len());

    let decoded = codec.decode_frame(&buffer).expect("Should decode large valid message");
    let (msg, _) = decoded.unwrap();
    assert_eq!(msg.payload.as_vec_byte().unwrap().len(), 1000000);
}

#[test]
fn test_symbol_with_very_long_string() {
    let long_symbol = "a".repeat(10000); // 10 KiB symbol
    let k_symbol = K::new_symbol(long_symbol.clone());

    let encoded = k_symbol.q_ipc_encode();
    let decoded = K::q_ipc_decode(&encoded, 1).unwrap();

    assert_eq!(decoded.get_symbol().unwrap(), long_symbol);
}

#[test]
fn test_list_with_million_elements() {
    let mut bytes = vec![kdb_codec::qtype::INT_LIST as u8, 0x00];
    bytes.extend_from_slice(&1000000u32.to_le_bytes());
    bytes.extend_from_slice(&vec![0u8; 4000000]);

    println!("Testing 1M element list deserialization...");
    let result = K::q_ipc_decode(&bytes, 1);
    println!("1M element list result: {:?}", result.is_ok());
    assert_eq!(result.unwrap().as_vec_int().unwrap().len(), 1000000);
}

#[test]
fn test_empty_lists_and_edge_cases() {
    let empty_list = K::new_long_list(vec![], qattribute::NONE);
    let encoded = empty_list.q_ipc_encode();
    let decoded = K::q_ipc_decode(&encoded, 1).unwrap();

    let list = decoded.as_vec_long().unwrap();
    assert_eq!(list.len(), 0);

    let empty_symbols = K::new_symbol_list(vec![], qattribute::NONE);
    let encoded = empty_symbols.q_ipc_encode();
    let decoded = K::q_ipc_decode(&encoded, 1).unwrap();

    let syms = decoded.as_vec_symbol().unwrap();
    assert_eq!(syms.len(), 0);
}

#[test]
fn test_nested_empty_lists() {
    let inner_empty = K::new_long_list(vec![], qattribute::NONE);
    let outer = K::new_compound_list(vec![inner_empty]);

    let encoded = outer.q_ipc_encode();
    let decoded = K::q_ipc_decode(&encoded, 1).unwrap();

    let outer_list = decoded.as_vec_k().unwrap();
    assert_eq!(outer_list.len(), 1);

    let inner_list = outer_list[0].as_vec_long().unwrap();
    assert_eq!(inner_list.len(), 0);
}

#[test]
fn test_compression_mode_transitions() {
    let large_list = K::new_long_list(vec![9; 3000], qattribute::NONE);
    let message = KdbMessage::new(qmsg_type::synchronous, large_list);

    let mut codec = KdbCodec::new(false);
    codec.set_compression_mode(CompressionMode::Never);
    let f1 = codec.encode_message(&message);
    assert_eq!(f1[2], 0, "Should not compress in Never mode");

    codec.set_compression_mode(CompressionMode::Always);
    let f2 = codec.encode_message(&message);
    assert_eq!(f2[2], 1, "Should compress in Always mode");
}

#[test]
fn test_realistic_table_size() {
    let rows = 1000usize;
    let mut names = Vec::new();
    let mut cols = Vec::new();
    for c in ["col1", "col2", "col3", "col4", "col5"] {
        names.push(c.to_string());
        cols.push(K::new_long_list((0..rows as i64).collect(), qattribute::NONE));
    }
    let keys = K::new_symbol_list(names, qattribute::NONE);
    let values = K::new_compound_list(cols);
    let table = K::new_dictionary(keys, values).unwrap().flip().unwrap();

    let bytes = table.q_ipc_encode();
    println!("Table size: {} bytes", bytes.len());
    let decoded = K::q_ipc_decode(&bytes, 1).unwrap();
    assert_eq!(decoded.q_ipc_encode(), bytes);
}
