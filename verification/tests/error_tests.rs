//! One input per error path, and the error rendering.

use kdb_codec::codec::{CompressionMode, KdbCodec, ValidationMode};
use kdb_codec::{io_error_to_kdb_error, qattribute, qtype, Error, K};

#[test]
fn message_too_large_when_over_the_frame_ceiling() {
    // 512 MiB declared length exceeds the default 256 MiB ceiling
    let codec = KdbCodec::with_options(false, CompressionMode::Never, ValidationMode::Strict);
    let mut buffer = Vec::new();
    buffer.extend_from_slice(&[0x01, 0x01, 0x00, 0x00]);
    buffer.extend_from_slice(&0x20000000u32.to_le_bytes());

    let result = codec.decode_frame(&buffer);
    assert!(matches!(result.unwrap_err(), Error::MessageTooLarge { .. }));
}

#[test]
fn wire_dictionary_with_unequal_sides_rejected() {
    // dictionary code, int-list keys of two, long-list values of one
    let mut bytes = vec![qtype::DICTIONARY as u8];
    bytes.push(qtype::INT_LIST as u8);
    bytes.push(0x00);
    bytes.extend_from_slice(&2u32.to_le_bytes());
    bytes.extend_from_slice(&1i32.to_le_bytes());
    bytes.extend_from_slice(&2i32.to_le_bytes());
    bytes.push(qtype::LONG_LIST as u8);
    bytes.push(0x00);
    bytes.extend_from_slice(&1u32.to_le_bytes());
    bytes.extend_from_slice(&7i64.to_le_bytes());

    let result = K::q_ipc_decode(&bytes, 1);
    assert!(matches!(result.unwrap_err(), Error::DeserializationError(_)));
}

#[test]
fn positional_index_on_an_atom_is_an_invalid_operation() {
    let atom = K::new_long(1);
    assert!(matches!(
        atom.try_index(0).unwrap_err(),
        Error::InvalidOperation { .. }
    ));
}

#[test]
fn float_keys_match_bit_for_bit() {
    let keys = K::new_float_list(vec![1.5f64.to_bits(), 2.5f64.to_bits()], qattribute::NONE);
    let values = K::new_compound_list(vec![K::new_long(10), K::new_long(20)]);
    let d = K::new_dictionary(keys, values).unwrap();

    let hit = K::new_float(2.5f64.to_bits());
    assert_eq!(d.try_find(&hit).unwrap().get_long().unwrap(), 20);

    let miss = K::new_float(2.25f64.to_bits());
    assert!(d.try_find(&miss).is_err());
}

#[test]
fn typed_list_attribute_survives_the_wire() {
    let list = K::new_long_list(vec![1, 2, 3], qattribute::PARTED);
    let bytes = list.q_ipc_encode();
    let decoded = K::q_ipc_decode(&bytes, 1).unwrap();
    assert_eq!(decoded.get_attribute(), qattribute::PARTED);
    assert_eq!(decoded.q_ipc_encode(), bytes);
}

#[test]
fn big_endian_short_list_decodes() {
    let bytes = vec![
        qtype::SHORT_LIST as u8,
        0x00,
        0x00, 0x00, 0x00, 0x02, // two elements, big-endian
        0x01, 0x00, // 256
        0xFF, 0xFF, // -1
    ];
    let decoded = K::q_ipc_decode(&bytes, 0).unwrap();
    assert_eq!(*decoded.as_vec_short().unwrap(), vec![256, -1]);
}

#[test]
fn io_errors_become_network_errors() {
    let e = io_error_to_kdb_error(std::io::Error::new(
        std::io::ErrorKind::ConnectionRefused,
        "nobody listening",
    ));
    assert!(matches!(e, Error::NetworkError(_)));
    assert!(e.message().contains("network error"));
}

#[test]
fn guid_atom_roundtrips() {
    let mut g = [0u8; 16];
    for (i, b) in g.iter_mut().enumerate() {
        *b = i as u8;
    }
    let k = K::new_guid(g);
    let bytes = k.q_ipc_encode();
    assert_eq!(bytes[0], qtype::GUID_ATOM as u8);
    let decoded = K::q_ipc_decode(&bytes, 1).unwrap();
    assert_eq!(decoded.get_guid().unwrap(), g);
    assert_eq!(decoded.q_ipc_encode(), bytes);
}

#[test]
fn error_atom_roundtrips() {
    let k = K::new_error("type".to_string());
    let bytes = k.q_ipc_encode();
    assert_eq!(bytes[0], qtype::ERROR as u8);
    let decoded = K::q_ipc_decode(&bytes, 1).unwrap();
    assert_eq!(decoded.get_type(), qtype::ERROR);
    assert_eq!(decoded.as_string().unwrap(), "type");
    assert_eq!(decoded.q_ipc_encode(), bytes);
}
