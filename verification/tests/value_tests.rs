//! Construction of K values: atoms, typed lists, attributes, compound
//! lists, dictionaries and tables.

use kdb_codec::{qattribute, K};

#[test]
fn test_atoms() {
    let _ = K::new_bool(true);
    let _ = K::new_byte(42);
    let _ = K::new_short(42);
    let _ = K::new_int(42);
    let _ = K::new_long(42);
    let _ = K::new_real(42.5f32.to_bits());
    let _ = K::new_float(42.5f64.to_bits());
    let _ = K::new_char('a');
    let _ = K::new_symbol("symbol".to_string());
    let _ = K::new_string("hello".to_string(), qattribute::NONE);
}

#[test]
fn test_lists() {
    let _ = K::new_bool_list(vec![true, false, true], qattribute::NONE);
    let _ = K::new_byte_list(vec![1, 2, 3], qattribute::NONE);
    let _ = K::new_short_list(vec![1, 2, 3], qattribute::NONE);
    let _ = K::new_int_list(vec![1, 2, 3], qattribute::NONE);
    let _ = K::new_long_list(vec![1, 2, 3], qattribute::NONE);
    let _ = K::new_real_list(vec![1.1f32.to_bits(), 2.2f32.to_bits(), 3.3f32.to_bits()], qattribute::NONE);
    let _ = K::new_float_list(vec![1.1f64.to_bits(), 2.2f64.to_bits(), 3.3f64.to_bits()], qattribute::NONE);
    let _ = K::new_symbol_list(vec!["a".to_string(), "b".to_string(), "c".to_string()], qattribute::NONE);
    let _ = K::new_string("hello".to_string(), qattribute::NONE);
}

#[test]
fn temporal_atom_offsets() {
    // q-epoch offsets: 2024-01-15T10:30:00.123456789 and friends
    let _ = K::new_timestamp(758629800123456789);
    let _ = K::new_datetime(8780.4375f64.to_bits());
    let _ = K::new_date(8780); // 2024-01-15 as days since 2000-01-01
    let _ = K::new_month(288); // 2024-01 as months since 2000-01
    let _ = K::new_timespan(5 * 3600 * 1_000_000_000); // five hours in nanoseconds
    let _ = K::new_minute(30);
    let _ = K::new_second(90);
    let _ = K::new_time(1000);
}

#[test]
fn temporal_list_offsets() {
    let _ = K::new_date_list(vec![8766, 8767], qattribute::NONE);
    let _ = K::new_month_list(vec![288, 289], qattribute::SORTED);
    let _ = K::new_timespan_list(vec![10_000_000_000, 20_000_000_000], qattribute::NONE);
    let _ = K::new_minute_list(vec![1, 2], qattribute::NONE);
}

#[test]
fn test_lists_with_attributes() {
    let _ = K::new_long_list(vec![1, 2, 3], qattribute::SORTED);
    let _ = K::new_symbol_list(vec!["a".to_string(), "b".to_string(), "c".to_string()], qattribute::UNIQUE);
}

#[test]
fn test_list_repetition_syntax() {
    let long_list = K::new_long_list(vec![42; 3000], qattribute::NONE);
    assert_eq!(long_list.len(), 3000);

    let int_list = K::new_int_list(vec![10; 100], qattribute::NONE);
    assert_eq!(int_list.len(), 100);

    let float_list = K::new_float_list(vec![3.14f64.to_bits(); 50], qattribute::NONE);
    assert_eq!(float_list.len(), 50);

    let sym_list = K::new_symbol_list(vec!["test".to_string(); 10], qattribute::NONE);
    assert_eq!(sym_list.len(), 10);

    let sorted_list = K::new_long_list(vec![1; 2500], qattribute::SORTED);
    assert_eq!(sorted_list.len(), 2500);
    assert_eq!(sorted_list.get_attribute(), qattribute::SORTED);
}

#[test]
fn test_compound_list() {
    let _ = K::new_compound_list(vec![
        K::new_long(1),
        K::new_float(2.5f64.to_bits()),
        K::new_symbol("symbol".to_string()),
    ]);
}

#[test]
fn test_dictionary() {
    let keys = K::new_int_list(vec![1, 2, 3], qattribute::NONE);
    let values = K::new_symbol_list(
        vec!["a".to_string(), "b".to_string(), "c".to_string()],
        qattribute::NONE,
    );
    let _ = K::new_dictionary(keys, values).unwrap();
}

#[test]
fn test_table() {
    let keys = K::new_symbol_list(
        vec!["col1".to_string(), "col2".to_string(), "col3".to_string()],
        qattribute::NONE,
    );
    let values = K::new_compound_list(vec![
        K::new_int_list(vec![1, 2, 3], qattribute::NONE),
        K::new_float_list(
            vec![1.1f64.to_bits(), 2.2f64.to_bits(), 3.3f64.to_bits()],
            qattribute::NONE,
        ),
        K::new_symbol_list(vec!["a".to_string(), "b".to_string(), "c".to_string()], qattribute::NONE),
    ]);
    let _ = K::new_dictionary(keys, values).unwrap().flip().unwrap();
}

#[test]
fn test_dictionary_length_mismatch_rejected() {
    let keys = K::new_int_list(vec![1, 2, 3], qattribute::NONE);
    let values = K::new_long_list(vec![10, 20], qattribute::NONE);
    assert!(K::new_dictionary(keys, values).is_err());
}

#[test]
fn test_keyed_table_from_two_tables() {
    let t1 = {
        let keys = K::new_symbol_list(vec!["id".to_string()], qattribute::NONE);
        let values = K::new_compound_list(vec![K::new_long_list(vec![1, 2], qattribute::NONE)]);
        K::new_dictionary(keys, values).unwrap().flip().unwrap()
    };
    let t2 = {
        let keys = K::new_symbol_list(vec!["qty".to_string()], qattribute::NONE);
        let values = K::new_compound_list(vec![K::new_long_list(vec![7, 8], qattribute::NONE)]);
        K::new_dictionary(keys, values).unwrap().flip().unwrap()
    };
    let keyed = K::new_dictionary(t1, t2).unwrap();
    assert_eq!(keyed.get_type(), kdb_codec::qtype::SORTED_DICTIONARY);
}

#[test]
fn is_well_formed_accepts_constructed_values() {
    assert!(kdb_codec::K::new_long(42).is_well_formed());
    let list = kdb_codec::K::new_compound_list(vec![
        kdb_codec::K::new_long(1),
        kdb_codec::K::new_bool(true),
    ]);
    assert!(list.is_well_formed());
}

#[test]
fn is_well_formed_rejects_mismatched_payload() {
    let bad = kdb_codec::K {
        qtype: kdb_codec::qtype::LONG_ATOM,
        attribute: kdb_codec::qattribute::NONE,
        value: kdb_codec::KValue::Byte(7),
    };
    assert!(!bad.is_well_formed());
}

#[test]
fn str_query_becomes_string_message() {
    let msg = kdb_codec::Query::to_kdb_message("select from t", kdb_codec::qmsg_type::synchronous);
    assert_eq!(msg.message_type, kdb_codec::qmsg_type::synchronous);
    assert_eq!(msg.payload.qtype, kdb_codec::qtype::STRING);
    assert_eq!(msg.payload.as_string().unwrap(), "select from t");
}

