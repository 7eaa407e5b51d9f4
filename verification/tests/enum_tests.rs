//! Enum atoms and enum lists: decoded conservatively as the domain name
//! plus integer indices, without symbol-table resolution.

use kdb_codec::deserialize::MAX_LIST_SIZE;
use kdb_codec::{qattribute, qtype, Error, K};

#[test]
fn test_enum_atom_valid() {
    // enum atom: type byte, null-terminated domain name, i32 index
    let value: i32 = 42;
    let domain = "sym";
    let mut bytes = vec![qtype::ENUM_ATOM as u8];
    bytes.extend_from_slice(domain.as_bytes());
    bytes.push(0x00);
    bytes.extend_from_slice(&[
        (value & 0xFF) as u8,
        ((value >> 8) & 0xFF) as u8,
        ((value >> 16) & 0xFF) as u8,
        ((value >> 24) & 0xFF) as u8,
    ]);

    let result = K::q_ipc_decode(&bytes, 1);
    assert!(result.is_ok(), "enum atom decode should succeed");

    let k = result.unwrap();
    assert_eq!(k.get_type(), qtype::ENUM_ATOM);

    let int_val = k.get_int();
    assert!(int_val.is_ok(), "should be able to extract as int");
    assert_eq!(int_val.unwrap(), value);
}

#[test]
fn test_enum_atom_zero() {
    let value: i32 = 0;
    let domain = "sym";
    let mut bytes = vec![qtype::ENUM_ATOM as u8];
    bytes.extend_from_slice(domain.as_bytes());
    bytes.push(0x00);
    bytes.extend_from_slice(&[0x00, 0x00, 0x00, 0x00]);

    let result = K::q_ipc_decode(&bytes, 1);
    assert!(result.is_ok());
    let k = result.unwrap();
    assert_eq!(k.get_int().unwrap(), value);
}

#[test]
fn test_enum_atom_negative() {
    let value: i32 = -2147483648; // the null enum index
    let domain = "sym";
    let mut bytes = vec![qtype::ENUM_ATOM as u8];
    bytes.extend_from_slice(domain.as_bytes());
    bytes.push(0x00);
    bytes.extend_from_slice(&[0x00, 0x00, 0x00, 0x80]); // little-endian i32 minimum

    let result = K::q_ipc_decode(&bytes, 1);
    assert!(result.is_ok());
    let k = result.unwrap();
    assert_eq!(k.get_int().unwrap(), value);
}

#[test]
fn test_enum_atom_truncated() {
    let bytes = vec![
        qtype::ENUM_ATOM as u8,
        b's', b'y', b'm', 0x00, // domain name
        0x01, 0x02, // only 2 of the 4 index bytes
    ];

    let err = K::q_ipc_decode(&bytes, 1).expect_err("should reject truncated enum atom");
    assert!(
        matches!(err, Error::InsufficientData { .. }),
        "expected InsufficientData, got: {err:?}"
    );
}

#[test]
fn test_enum_list_valid_small() {
    // enum list: type, attribute, count, null-terminated domain, indices
    let size: u32 = 3;
    let domain = "sym";
    let mut bytes = vec![
        qtype::ENUM_LIST as u8,
        0x00, // attribute
        (size & 0xFF) as u8,
        ((size >> 8) & 0xFF) as u8,
        ((size >> 16) & 0xFF) as u8,
        ((size >> 24) & 0xFF) as u8,
    ];
    bytes.extend_from_slice(domain.as_bytes());
    bytes.push(0x00);
    bytes.extend_from_slice(&[
        0x01, 0x00, 0x00, 0x00, // 1
        0x02, 0x00, 0x00, 0x00, // 2
        0x03, 0x00, 0x00, 0x00, // 3
    ]);

    let result = K::q_ipc_decode(&bytes, 1);
    assert!(result.is_ok(), "enum list decode should succeed");

    let k = result.unwrap();
    assert_eq!(k.get_type(), qtype::ENUM_LIST);

    let list = k.as_vec_int();
    assert!(list.is_ok(), "should be able to extract as i32 vec");
    let values = list.unwrap();
    assert_eq!(values.len(), 3);
    assert_eq!(values[0], 1);
    assert_eq!(values[1], 2);
    assert_eq!(values[2], 3);
}

#[test]
fn test_enum_list_empty() {
    let domain = "sym";
    let mut bytes = vec![
        qtype::ENUM_LIST as u8,
        0x00, // attribute
        0x00, 0x00, 0x00, 0x00, // count 0
    ];
    bytes.extend_from_slice(domain.as_bytes());
    bytes.push(0x00);

    let result = K::q_ipc_decode(&bytes, 1);
    assert!(result.is_ok());
    let k = result.unwrap();
    assert_eq!(k.get_type(), qtype::ENUM_LIST);
    let list = k.as_vec_int().unwrap();
    assert_eq!(list.len(), 0);
}

#[test]
fn test_enum_list_with_sorted_attribute() {
    let size: u32 = 2;
    let domain = "sym";
    let mut bytes = vec![
        qtype::ENUM_LIST as u8,
        qattribute::SORTED as u8,
        (size & 0xFF) as u8,
        ((size >> 8) & 0xFF) as u8,
        ((size >> 16) & 0xFF) as u8,
        ((size >> 24) & 0xFF) as u8,
    ];
    bytes.extend_from_slice(domain.as_bytes());
    bytes.push(0x00);
    bytes.extend_from_slice(&[0x05, 0x00, 0x00, 0x00, 0x0A, 0x00, 0x00, 0x00]);

    let result = K::q_ipc_decode(&bytes, 1);
    assert!(result.is_ok());
    let k = result.unwrap();
    assert_eq!(k.get_attribute(), qattribute::SORTED);
}

#[test]
fn test_enum_list_truncated_header() {
    let bytes = vec![
        qtype::ENUM_LIST as u8,
        0x00, // attribute
        0x03, 0x00, // only 2 of the 4 count bytes
    ];

    let err = K::q_ipc_decode(&bytes, 1).expect_err("should reject truncated header");
    assert!(
        matches!(err, Error::InsufficientData { .. }),
        "expected InsufficientData, got: {err:?}"
    );
}

#[test]
fn test_enum_list_truncated_data() {
    let size: u32 = 5;
    let mut bytes = vec![
        qtype::ENUM_LIST as u8,
        0x00,
        (size & 0xFF) as u8,
        ((size >> 8) & 0xFF) as u8,
        ((size >> 16) & 0xFF) as u8,
        ((size >> 24) & 0xFF) as u8,
    ];
    // only 2 of the 5 declared indices
    bytes.extend_from_slice(&[0x01, 0x00, 0x00, 0x00, 0x02, 0x00, 0x00, 0x00]);

    let err = K::q_ipc_decode(&bytes, 1).expect_err("should reject truncated data");
    assert!(
        matches!(err, Error::InsufficientData { .. }),
        "expected InsufficientData, got: {err:?}"
    );
}

#[test]
fn test_enum_list_oversized() {
    let size = (MAX_LIST_SIZE as u32) + 1;
    let bytes = vec![
        qtype::ENUM_LIST as u8,
        0x00,
        (size & 0xFF) as u8,
        ((size >> 8) & 0xFF) as u8,
        ((size >> 16) & 0xFF) as u8,
        ((size >> 24) & 0xFF) as u8,
    ];

    let err = K::q_ipc_decode(&bytes, 1).expect_err("should reject oversized list");
    assert!(
        matches!(err, Error::ListTooLarge { .. }),
        "expected ListTooLarge, got: {err:?}"
    );
}

#[test]
fn test_enum_list_size_overflow() {
    let size = u32::MAX / 2; // far over the list budget
    let bytes = vec![
        qtype::ENUM_LIST as u8,
        0x00,
        (size & 0xFF) as u8,
        ((size >> 8) & 0xFF) as u8,
        ((size >> 16) & 0xFF) as u8,
        ((size >> 24) & 0xFF) as u8,
    ];

    let err = K::q_ipc_decode(&bytes, 1).expect_err("should catch size overflow");
    assert!(
        matches!(err, Error::ListTooLarge { .. } | Error::SizeOverflow),
        "expected ListTooLarge or SizeOverflow, got: {err:?}"
    );
}

#[test]
fn test_enum_list_big_endian() {
    let domain = "sym";
    let mut bytes = vec![
        qtype::ENUM_LIST as u8,
        0x00,
        0x00, 0x00, 0x00, 0x02, // big-endian count
    ];
    bytes.extend_from_slice(domain.as_bytes());
    bytes.push(0x00);
    bytes.extend_from_slice(&[
        0x00, 0x00, 0x00, 0x0A, // 10
        0x00, 0x00, 0x00, 0x14, // 20
    ]);

    let result = K::q_ipc_decode(&bytes, 0); // big-endian
    assert!(result.is_ok());
    let k = result.unwrap();
    let list = k.as_vec_int().unwrap();
    assert_eq!(list.len(), 2);
    assert_eq!(list[0], 10);
    assert_eq!(list[1], 20);
}

#[test]
fn test_enum_atom_roundtrip() {
    let original = K::new_enum("sym".to_string(), 42);
    let bytes = original.q_ipc_encode();
    let decoded = K::q_ipc_decode(&bytes, 1).unwrap();
    assert_eq!(decoded.get_type(), qtype::ENUM_ATOM);
    assert_eq!(decoded.get_int().unwrap(), 42);
    assert_eq!(decoded.q_ipc_encode(), bytes);
}

#[test]
fn test_enum_list_roundtrip() {
    let original = K::new_enum_list("sym".to_string(), vec![1, 2, 3], qattribute::NONE);
    let bytes = original.q_ipc_encode();
    let decoded = K::q_ipc_decode(&bytes, 1).unwrap();
    assert_eq!(decoded.get_type(), qtype::ENUM_LIST);
    assert_eq!(*decoded.as_vec_int().unwrap(), vec![1, 2, 3]);
    assert_eq!(decoded.q_ipc_encode(), bytes);
}

#[test]
fn test_enum_list_with_long_domain_name() {
    let original = K::new_enum_list(
        "my_custom_enum_domain".to_string(),
        vec![10],
        qattribute::NONE,
    );
    let bytes = original.q_ipc_encode();
    let decoded = K::q_ipc_decode(&bytes, 1).unwrap();
    assert_eq!(*decoded.as_vec_int().unwrap(), vec![10]);
    assert_eq!(decoded.q_ipc_encode(), bytes);
}

#[test]
fn test_enum_atom_with_empty_domain() {
    let original = K::new_enum(String::new(), 100);
    let bytes = original.q_ipc_encode();
    let decoded = K::q_ipc_decode(&bytes, 1).unwrap();
    assert_eq!(decoded.get_int().unwrap(), 100);
    assert_eq!(decoded.q_ipc_encode(), bytes);
}
