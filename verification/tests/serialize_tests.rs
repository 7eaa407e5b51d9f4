//! Whole-frame encoding and decoding via `ipc_msg_encode`/`ipc_msg_decode`.

use kdb_codec::codec::decompress_sync;
use kdb_codec::serialize::ENCODING;
use kdb_codec::{qattribute, qmsg_type, qtype, K};

fn read_u32(bytes: &[u8]) -> u32 {
    match ENCODING {
        0 => u32::from_be_bytes(bytes.try_into().unwrap()),
        _ => u32::from_le_bytes(bytes.try_into().unwrap()),
    }
}

#[test]
fn ipc_msg_encode_uncompressed_has_valid_header_and_length() {
    let k = K::new_int(42);
    let payload = k.q_ipc_encode();
    let msg = k.ipc_msg_encode(qmsg_type::synchronous, false);

    assert_eq!(msg[0], ENCODING);
    assert_eq!(msg[1], qmsg_type::synchronous);
    assert_eq!(msg[2], 0);
    assert_eq!(msg[3], 0);

    let length = read_u32(&msg[4..8]);
    assert_eq!(length as usize, msg.len());
    assert_eq!(length as usize, 8 + payload.len());

    assert_eq!(&msg[8..], payload.as_slice());
}

#[test]
fn ipc_msg_encode_with_compression_produces_compressed_frame_and_roundtrips() {
    // highly compressible payload
    let k = K::new_byte_list(vec![0u8; 20000], qattribute::NONE);
    let payload = k.q_ipc_encode();
    let msg = k.ipc_msg_encode(qmsg_type::synchronous, true);

    assert_eq!(msg[0], ENCODING);
    assert_eq!(msg[1], qmsg_type::synchronous);
    assert_eq!(msg[2], 1);
    assert_eq!(msg[3], 0);

    let compressed_total_len = read_u32(&msg[4..8]) as usize;
    assert_eq!(compressed_total_len, msg.len());

    let uncompressed_total_len = read_u32(&msg[8..12]) as usize;
    assert_eq!(uncompressed_total_len, 8 + payload.len());

    let decompressed_payload = decompress_sync(msg[8..].to_vec(), msg[0], None).unwrap();
    assert_eq!(decompressed_payload, payload);
}

#[test]
fn ipc_msg_encode_with_compression_falls_back_to_uncompressed_when_not_worth_it() {
    // pseudo-random-ish bytes should not compress to less than half
    let data: Vec<u8> = (0u32..5000)
        .map(|i| ((i.wrapping_mul(31).wrapping_add(7)) % 256) as u8)
        .collect();
    let k = K::new_byte_list(data, qattribute::NONE);
    let payload = k.q_ipc_encode();

    let msg = k.ipc_msg_encode(qmsg_type::synchronous, true);

    assert_eq!(msg[0], ENCODING);
    assert_eq!(msg[1], qmsg_type::synchronous);
    assert_eq!(msg[2], 0);
    assert_eq!(msg[3], 0);

    let total_len = read_u32(&msg[4..8]) as usize;
    assert_eq!(total_len, msg.len());
    assert_eq!(total_len, 8 + payload.len());
    assert_eq!(&msg[8..], payload.as_slice());
}

#[test]
fn ipc_msg_decode_uncompressed_roundtrips() {
    let original = K::new_int(42);
    let msg = original.ipc_msg_encode(qmsg_type::synchronous, false);

    let (header, decoded) = K::ipc_msg_decode(&msg).unwrap();

    assert_eq!(header.encoding, ENCODING);
    assert_eq!(header.message_type, qmsg_type::synchronous);
    assert_eq!(header.compressed, 0);
    assert_eq!(header.length as usize, msg.len());

    assert_eq!(decoded.get_type(), qtype::INT_ATOM);
    assert_eq!(decoded.get_int().unwrap(), 42);
}

#[test]
fn ipc_msg_decode_compressed_roundtrips() {
    let original = K::new_byte_list(vec![0u8; 20000], qattribute::NONE);
    let msg = original.ipc_msg_encode(qmsg_type::asynchronous, true);

    let (header, decoded) = K::ipc_msg_decode(&msg).unwrap();

    assert_eq!(header.encoding, ENCODING);
    assert_eq!(header.message_type, qmsg_type::asynchronous);
    assert_eq!(header.compressed, 1);

    assert_eq!(decoded.get_type(), qtype::BYTE_LIST);
    let decoded_list = decoded.as_vec_byte().unwrap();
    assert_eq!(decoded_list.len(), 20000);
    assert!(decoded_list.iter().all(|&b| b == 0));
}

#[test]
fn ipc_msg_decode_complex_object_roundtrips() {
    let original = K::new_symbol_list(
        vec!["hello".to_string(), "world".to_string(), "kdb".to_string()],
        qattribute::NONE,
    );
    let msg = original.ipc_msg_encode(qmsg_type::response, false);

    let (header, decoded) = K::ipc_msg_decode(&msg).unwrap();

    assert_eq!(header.message_type, qmsg_type::response);
    assert_eq!(decoded.get_type(), qtype::SYMBOL_LIST);

    let decoded_list = decoded.as_vec_symbol().unwrap();
    assert_eq!(
        *decoded_list,
        vec!["hello".to_string(), "world".to_string(), "kdb".to_string()]
    );
}

#[test]
fn ipc_msg_decode_fails_on_invalid_header() {
    let invalid_msg = vec![1, 2, 3]; // too short for a header
    let result = K::ipc_msg_decode(&invalid_msg);
    assert!(result.is_err());
}

#[test]
fn encode_then_decode_reproduces_mixed_value() {
    // decode(encode(v)) gives back v, observed through the accessors
    let v = K::new_compound_list(vec![
        K::new_long(7),
        K::new_symbol("abc".to_string()),
        K::new_short_list(vec![-1, 0, 1], qattribute::NONE),
        K::new_string("hi".to_string(), qattribute::NONE),
        K::new_null(),
    ]);
    let bytes = v.q_ipc_encode();
    let decoded = K::q_ipc_decode(&bytes, 1).unwrap();

    let items = decoded.as_vec_k().unwrap();
    assert_eq!(items.len(), 5);
    assert_eq!(items[0].get_long().unwrap(), 7);
    assert_eq!(items[1].get_symbol().unwrap(), "abc");
    assert_eq!(*items[2].as_vec_short().unwrap(), vec![-1, 0, 1]);
    assert_eq!(items[3].as_string().unwrap(), "hi");
    assert_eq!(items[4].get_type(), kdb_codec::qtype::NULL);
}

#[test]
fn decode_then_encode_reproduces_bytes() {
    // encode(decode(b)) == b for frames this library emits: the decoder's
    // contract says the consumed span is exactly the value's serialization
    let t = {
        let keys = K::new_symbol_list(vec!["a".to_string(), "b".to_string()], qattribute::NONE);
        let values = K::new_compound_list(vec![
            K::new_long_list(vec![1, 2], qattribute::NONE),
            K::new_guid_list(vec![[7u8; 16], [9u8; 16]], qattribute::NONE),
        ]);
        K::new_dictionary(keys, values).unwrap().flip().unwrap()
    };
    let bytes = t.q_ipc_encode();
    let decoded = K::q_ipc_decode(&bytes, 1).unwrap();
    let reencoded = decoded.q_ipc_encode();
    assert_eq!(reencoded, bytes);
}

#[test]
fn big_endian_frames_decode_and_reencode() {
    // a big-endian int list frame decodes; the decoded value re-encodes in
    // this library's little-endian form with the same content
    let bytes = vec![
        qtype::INT_LIST as u8,
        0, // attribute
        0, 0, 0, 2, // size 2, big-endian
        0, 0, 0, 10, // 10
        0, 0, 0, 20, // 20
    ];
    let decoded = K::q_ipc_decode(&bytes, 0).unwrap();
    assert_eq!(*decoded.as_vec_int().unwrap(), vec![10, 20]);
}
