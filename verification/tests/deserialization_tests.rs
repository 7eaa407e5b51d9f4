//! Deserialization hardening: oversized length claims, overflowing size
//! computations, missing terminators, invalid UTF-8 and excessive nesting
//! are all refused with typed errors.

use kdb_codec::{qtype, Error, K};

#[test]
fn test_large_list_allocation_i64() {
    // a declared length of 4,294,967,295 longs is over the list budget
    let mut bytes = vec![qtype::LONG_LIST as u8, 0x00, 0xFF, 0xFF, 0xFF, 0xFF];
    bytes.extend_from_slice(&[0x00; 32]);

    let result = K::q_ipc_decode(&bytes, 1);
    assert!(result.is_err(), "oversized list claim must be refused");
    assert!(
        matches!(result.unwrap_err(), Error::ListTooLarge { .. }),
        "expected ListTooLarge"
    );
}

#[test]
fn test_large_list_allocation_guid() {
    // 268,435,455 GUIDs would need 4 GiB
    let mut bytes = vec![qtype::GUID_LIST as u8, 0x00, 0xFF, 0xFF, 0xFF, 0x0F];
    bytes.extend_from_slice(&[0x00; 64]);

    let result = K::q_ipc_decode(&bytes, 1);
    assert!(result.is_err(), "oversized GUID list claim must be refused");
}

#[test]
fn test_integer_overflow_in_size_calculation() {
    // 536,870,912 longs would need 4 GiB of payload
    let mut bytes = vec![qtype::LONG_LIST as u8, 0x00, 0x00, 0x00, 0x00, 0x20];
    bytes.extend_from_slice(&[0x00; 64]);

    let result = K::q_ipc_decode(&bytes, 1);
    assert!(result.is_err(), "overflowing byte count must be refused");
}

#[test]
fn test_symbol_without_null_terminator() {
    let bytes = vec![qtype::SYMBOL_ATOM as u8, b'h', b'e', b'l', b'l', b'o'];

    let result = K::q_ipc_decode(&bytes, 1);
    assert!(matches!(result.unwrap_err(), Error::MissingNullTerminator));
}

#[test]
fn test_symbol_with_invalid_utf8() {
    let bytes = vec![qtype::SYMBOL_ATOM as u8, 0xFF, 0xFE, 0xFD, 0x00];

    let result = K::q_ipc_decode(&bytes, 1);
    assert!(matches!(result.unwrap_err(), Error::InvalidUtf8));
}

#[test]
fn test_string_with_invalid_utf8() {
    let bytes = vec![
        qtype::STRING as u8,
        0x00, // attribute
        0x05, 0x00, 0x00, 0x00, // size 5
        0xFF, 0xFE, 0xFD, 0xFC, 0xFB, // invalid UTF-8
    ];

    let result = K::q_ipc_decode(&bytes, 1);
    assert!(matches!(result.unwrap_err(), Error::InvalidUtf8));
}

#[test]
fn test_symbol_list_with_invalid_utf8() {
    let bytes = vec![
        qtype::SYMBOL_LIST as u8,
        0x00, // attribute
        0x02, 0x00, 0x00, 0x00, // two symbols
        b'o', b'k', 0x00, // "ok"
        0xFF, 0xFE, 0x00, // invalid UTF-8
    ];

    println!("Testing symbol list with invalid UTF-8...");
    let result = K::q_ipc_decode(&bytes, 1);
    assert!(result.is_err(), "Should reject invalid UTF-8");
}

fn nested_compound(depth: usize, tail: &[u8]) -> Vec<u8> {
    let mut bytes = Vec::new();
    for _ in 0..depth {
        bytes.push(qtype::COMPOUND_LIST as u8);
        bytes.push(0x00);
        bytes.extend_from_slice(&[0x01, 0x00, 0x00, 0x00]);
    }
    bytes.extend_from_slice(tail);
    bytes
}

#[test]
fn test_deeply_nested_compound_list() {
    // 110 levels exceed the default budget of 100
    let mut tail = vec![qtype::INT_ATOM as u8];
    tail.extend_from_slice(&[0x2A, 0x00, 0x00, 0x00]); // 42
    let bytes = nested_compound(110, &tail);

    println!("Testing deeply nested lists (depth: {})...", 110);
    match K::q_ipc_decode(&bytes, 1) {
        Ok(_) => panic!("Should have returned MaxDepthExceeded error"),
        Err(e) => {
            println!("Got expected error: {}", e.message());
            assert!(e.message().contains("depth"));
        },
    }
}

#[test]
fn test_extremely_deep_nesting() {
    let mut tail = vec![qtype::INT_ATOM as u8];
    tail.extend_from_slice(&[0x00, 0x00, 0x00, 0x00]);
    let bytes = nested_compound(150, &tail);

    println!("Testing extremely deep nesting (depth: {})...", 150);
    match K::q_ipc_decode(&bytes, 1) {
        Ok(_) => panic!("Should have returned MaxDepthExceeded error"),
        Err(e) => {
            println!("Got expected error: {}", e.message());
            assert!(e.message().contains("depth"));
        },
    }
}

#[test]
fn test_nested_table_in_list() {
    let mut tail = vec![qtype::TABLE as u8, 0x00, qtype::DICTIONARY as u8];
    tail.push(qtype::SYMBOL_LIST as u8); // keys
    tail.push(0x00);
    tail.extend_from_slice(&[0x00, 0x00, 0x00, 0x00]);
    tail.push(qtype::COMPOUND_LIST as u8); // values
    tail.push(0x00);
    tail.extend_from_slice(&[0x00, 0x00, 0x00, 0x00]);
    let bytes = nested_compound(110, &tail);

    println!("Testing nested table structure...");
    match K::q_ipc_decode(&bytes, 1) {
        Ok(_) => panic!("Should have returned MaxDepthExceeded error"),
        Err(e) => {
            println!("Got expected error: {}", e.message());
            assert!(e.message().contains("depth"));
        },
    }
}

#[test]
fn test_reasonable_list_sizes() {
    let mut bytes = vec![qtype::LONG_LIST as u8, 0x00, 0x0A, 0x00, 0x00, 0x00];
    for v in 1u64..=10 {
        bytes.extend_from_slice(&v.to_le_bytes());
    }

    let k = K::q_ipc_decode(&bytes, 1).unwrap();
    let list = k.as_vec_long().unwrap();

    assert_eq!(list.len(), 10);
    assert_eq!(list[0], 1);
    assert_eq!(list[9], 10);
}

#[test]
fn test_valid_symbol_list() {
    let bytes = vec![
        qtype::SYMBOL_LIST as u8,
        0x00, // attribute
        0x03, 0x00, 0x00, 0x00, // three symbols
        b'o', b'n', b'e', 0x00, // "one"
        b't', b'w', b'o', 0x00, // "two"
        b't', b'h', b'r', b'e', b'e', 0x00, // "three"
    ];

    let k = K::q_ipc_decode(&bytes, 1).unwrap();
    let list = k.as_vec_symbol().unwrap();

    assert_eq!(list.len(), 3);
    assert_eq!(list[0], "one");
    assert_eq!(list[1], "two");
    assert_eq!(list[2], "three");
}

#[test]
fn test_moderate_nesting_depth() {
    let mut tail = vec![qtype::INT_ATOM as u8];
    tail.extend_from_slice(&[0x2A, 0x00, 0x00, 0x00]); // 42
    let bytes = nested_compound(10, &tail);

    let k = K::q_ipc_decode(&bytes, 1).unwrap();

    let mut current = k;
    for _ in 0..10 {
        let list = current.as_vec_k().unwrap();
        assert_eq!(list.len(), 1);
        current = list[0].clone();
    }

    assert_eq!(current.get_int().unwrap(), 42);
}

#[test]
fn test_truncated_long_atom_gives_insufficient_data() {
    let bytes = vec![qtype::LONG_ATOM as u8, 0x2A, 0x00]; // only 2 of 8 payload bytes
    let result = K::q_ipc_decode(&bytes, 1);
    assert!(matches!(result.unwrap_err(), Error::InsufficientData { .. }));
}

#[test]
fn test_unknown_type_code_rejected() {
    let bytes = vec![50u8, 0x00, 0x00]; // 50 is not a recognized code
    let result = K::q_ipc_decode(&bytes, 1);
    assert!(matches!(result.unwrap_err(), Error::InvalidType(50)));
}

#[test]
fn test_enum_atom_decodes_to_index() {
    // enum atom: domain name, terminator, then the 4-byte index
    let mut bytes = vec![qtype::ENUM_ATOM as u8];
    bytes.extend_from_slice(b"sym");
    bytes.push(0x00);
    bytes.extend_from_slice(&42i32.to_le_bytes());

    let k = K::q_ipc_decode(&bytes, 1).unwrap();
    assert_eq!(k.get_type(), qtype::ENUM_ATOM);
    assert_eq!(k.get_int().unwrap(), 42);
}

#[test]
fn test_enum_list_decodes_to_indices() {
    let mut bytes = vec![qtype::ENUM_LIST as u8, 0x00];
    bytes.extend_from_slice(&3u32.to_le_bytes());
    bytes.extend_from_slice(b"sym");
    bytes.push(0x00);
    for v in [1i32, 2, 3] {
        bytes.extend_from_slice(&v.to_le_bytes());
    }

    let k = K::q_ipc_decode(&bytes, 1).unwrap();
    assert_eq!(k.get_type(), qtype::ENUM_LIST);
    assert_eq!(*k.as_vec_int().unwrap(), vec![1, 2, 3]);
}

#[test]
fn test_lambda_roundtrips() {
    let lambda = K::new_lambda(String::new(), "{x+y}".to_string());
    let bytes = lambda.q_ipc_encode();
    let decoded = K::q_ipc_decode(&bytes, 1).unwrap();
    let (context, body) = decoded.as_lambda().unwrap();
    assert_eq!(context, "");
    assert_eq!(body, "{x+y}");
    assert_eq!(decoded.q_ipc_encode(), bytes);
}

#[test]
fn test_generic_null_roundtrips() {
    let bytes = vec![qtype::UNARY_PRIMITIVE as u8, 0x00];
    let k = K::q_ipc_decode(&bytes, 1).unwrap();
    assert_eq!(k.get_type(), qtype::NULL);
    assert_eq!(k.q_ipc_encode(), bytes);
}

#[test]
fn test_projection_payload_preserved() {
    // projection: i32 count then that many values; the span is kept verbatim
    let mut bytes = vec![qtype::PROJECTION as u8];
    bytes.extend_from_slice(&2i32.to_le_bytes());
    bytes.push(qtype::UNARY_PRIMITIVE as u8);
    bytes.push(0x01);
    bytes.push(qtype::LONG_ATOM as u8);
    bytes.extend_from_slice(&5i64.to_le_bytes());

    let k = K::q_ipc_decode(&bytes, 1).unwrap();
    assert_eq!(k.get_type(), qtype::PROJECTION);
    assert_eq!(k.q_ipc_encode(), bytes);
}

#[test]
fn test_sorted_table_attribute_preserved() {
    // a sorted table's attribute byte survives the round trip
    let bytes = {
        let keys = K::new_symbol_list(vec!["c".to_string()], kdb_codec::qattribute::NONE);
        let values = K::new_compound_list(vec![K::new_long_list(
            vec![1, 2],
            kdb_codec::qattribute::NONE,
        )]);
        let mut t = K::new_dictionary(keys, values).unwrap().flip().unwrap();
        t.attribute = kdb_codec::qattribute::SORTED;
        t.q_ipc_encode()
    };
    let decoded = K::q_ipc_decode(&bytes, 1).unwrap();
    assert_eq!(decoded.get_attribute(), kdb_codec::qattribute::SORTED);
    assert_eq!(decoded.q_ipc_encode(), bytes);
}
