//! End-to-end wire scenarios: exact frames, compression policy, strict
//! validation, bombs and nesting budgets.

use kdb_codec::codec::{CompressionMode, KdbCodec, KdbMessage, MessageHeader, ValidationMode,
    decompress_sync};
use kdb_codec::{qattribute, qmsg_type, qtype, K};

#[test]
fn atom_roundtrip_frame_bytes() {
    // a long atom 42 sent asynchronously: header (little-endian, async,
    // uncompressed, total 17) then 0xF9 and the 8 little-endian value bytes
    let frame = K::new_long(42).ipc_msg_encode(qmsg_type::asynchronous, false);
    assert_eq!(
        frame,
        vec![0x01, 0x00, 0x00, 0x00, 0x11, 0x00, 0x00, 0x00, 0xF9, 0x2A, 0, 0, 0, 0, 0, 0, 0]
    );

    let codec = KdbCodec::new(true);
    let (msg, consumed) = codec.decode_frame(&frame).unwrap().unwrap();
    assert_eq!(consumed, frame.len());
    assert_eq!(msg.message_type, qmsg_type::asynchronous);
    assert_eq!(msg.payload.get_long().unwrap(), 42);
}

#[test]
fn compressed_large_repetitive_long_list() {
    // 3000 copies of 1, sent synchronously on a remote Auto connection:
    // the frame carries the compressed flag and is shorter than the payload
    let list = K::new_long_list(vec![1; 3000], qattribute::NONE);
    let payload_len = list.q_ipc_encode().len();
    let codec = KdbCodec::with_options(false, CompressionMode::Auto, ValidationMode::Strict);
    let frame = codec.encode_message(&KdbMessage::new(qmsg_type::synchronous, list));

    let header = MessageHeader::from_bytes(&frame[..8]).unwrap();
    assert_eq!(header.compressed, 1);
    assert!(frame.len() < payload_len);

    let (msg, _) = codec.decode_frame(&frame).unwrap().unwrap();
    assert_eq!(msg.message_type, qmsg_type::synchronous);
    let values = msg.payload.as_vec_long().unwrap();
    assert_eq!(values.len(), 3000);
    assert!(values.iter().all(|&v| v == 1));
}

#[test]
fn strict_rejects_bad_compressed_flag() {
    let input = vec![
        0x01, 0x01, 0x02, 0x00, 0x14, 0x00, 0x00, 0x00, 0x00, 0x00, 0x00, 0x00, 0x00, 0x00,
        0x00, 0x00, 0x00, 0x00, 0x00, 0x00,
    ];
    let strict = KdbCodec::with_options(false, CompressionMode::Never, ValidationMode::Strict);
    let result = strict.decode_frame(&input);
    assert!(result.is_err());
    assert!(result.unwrap_err().message().contains("Invalid compressed flag"));

    // in lenient mode, the same header shape with a valid payload is
    // accepted (a compressed flag other than 1 is treated as uncompressed)
    let payload = K::new_long(7).q_ipc_encode();
    let mut lenient_frame = vec![0x01, 0x01, 0x02, 0x00];
    lenient_frame.extend_from_slice(&((8 + payload.len()) as u32).to_le_bytes());
    lenient_frame.extend_from_slice(&payload);
    let lenient = KdbCodec::with_options(false, CompressionMode::Never, ValidationMode::Lenient);
    let (msg, _) = lenient.decode_frame(&lenient_frame).unwrap().unwrap();
    assert_eq!(msg.payload.get_long().unwrap(), 7);
}

#[test]
fn compression_bomb_refused() {
    // a claimed decompressed size of about 2 GiB against a 512 MiB ceiling
    let mut bytes = vec![0xFF, 0xFF, 0xFF, 0x7F];
    bytes.extend_from_slice(&[0x00; 16]);

    let result = decompress_sync(bytes, 1, Some(512 * 1024 * 1024));
    assert!(result.is_err());
    assert!(matches!(
        result.unwrap_err(),
        kdb_codec::Error::DecompressedSizeExceedsLimit { .. }
    ));
}

#[test]
fn deep_nesting_refused_shallow_accepted() {
    // 110 nested singleton compound lists exceed the default budget of 100
    let mut deep = Vec::new();
    for _ in 0..110 {
        deep.push(qtype::COMPOUND_LIST as u8);
        deep.push(0x00);
        deep.extend_from_slice(&1u32.to_le_bytes());
    }
    deep.push(qtype::INT_ATOM as u8);
    deep.extend_from_slice(&42i32.to_le_bytes());
    assert!(matches!(
        K::q_ipc_decode(&deep, 1).unwrap_err(),
        kdb_codec::Error::MaxDepthExceeded { .. }
    ));

    // ten levels decode to a chain of singletons ending in int 42
    let mut shallow = Vec::new();
    for _ in 0..10 {
        shallow.push(qtype::COMPOUND_LIST as u8);
        shallow.push(0x00);
        shallow.extend_from_slice(&1u32.to_le_bytes());
    }
    shallow.push(qtype::INT_ATOM as u8);
    shallow.extend_from_slice(&42i32.to_le_bytes());
    let mut k = K::q_ipc_decode(&shallow, 1).unwrap();
    for _ in 0..10 {
        let items = k.as_vec_k().unwrap();
        assert_eq!(items.len(), 1);
        k = items[0].clone();
    }
    assert_eq!(k.get_int().unwrap(), 42);
}

#[test]
fn dictionary_code_must_match_contents() {
    // a keyed table announced with the plain dictionary code is refused, so
    // that re-encoding a decoded dictionary always reproduces the input
    let t = {
        let keys = K::new_symbol_list(vec!["a".to_string()], qattribute::NONE);
        let values = K::new_compound_list(vec![K::new_long_list(vec![1], qattribute::NONE)]);
        K::new_dictionary(keys, values).unwrap().flip().unwrap()
    };
    let keyed = K::new_dictionary(t.clone(), t).unwrap();
    let mut bytes = keyed.q_ipc_encode();
    assert_eq!(bytes[0], qtype::SORTED_DICTIONARY as u8);
    bytes[0] = qtype::DICTIONARY as u8;
    assert!(K::q_ipc_decode(&bytes, 1).is_err());
}

#[test]
fn compressed_frame_roundtrips_through_compressor() {
    // for every frame the compressor emits, decompressing bytes 8.. gives
    // back the raw payload and bytes 8..12 carry the raw length
    let mut raw = vec![0x01, 0x00, 0x00, 0x00, 0x00, 0x00, 0x00, 0x00];
    for i in 0u32..600 {
        raw.extend_from_slice(&(i % 4).to_le_bytes());
    }
    let (ok, compressed) = kdb_codec::compress_sync(raw.clone());
    assert!(ok);
    let declared_raw = u32::from_le_bytes(compressed[8..12].try_into().unwrap()) as usize;
    assert_eq!(declared_raw, raw.len());
    let back = decompress_sync(compressed[8..].to_vec(), 1, None).unwrap();
    assert_eq!(back, raw[8..].to_vec());
}
