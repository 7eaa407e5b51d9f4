//! Dictionary and table access: positional indexing, key lookup, column
//! access and in-place replacement.

use kdb_codec::{qattribute, qtype, K};

fn syms(names: &[&str]) -> K {
    K::new_symbol_list(names.iter().map(|s| s.to_string()).collect(), qattribute::NONE)
}

fn dict(keys: K, values: K) -> K {
    K::new_dictionary(keys, values).expect("dictionary construction should succeed")
}

fn table(cols: &[(&str, K)]) -> K {
    let keys = syms(&cols.iter().map(|(n, _)| *n).collect::<Vec<&str>>());
    let values = K::new_compound_list(cols.iter().map(|(_, v)| v.clone()).collect());
    dict(keys, values).flip().expect("flip should produce a table")
}

fn float_list(values: &[f64]) -> K {
    K::new_float_list(values.iter().map(|v| v.to_bits()).collect(), qattribute::NONE)
}

#[test]
fn test_dictionary_index_read() {
    let d = dict(syms(&["a", "b"]), K::new_long_list(vec![10, 20], qattribute::NONE));

    let keys_ref = d.try_index(0).unwrap();
    let values_ref = d.try_index(1).unwrap();

    assert_eq!(keys_ref.get_type(), qtype::SYMBOL_LIST);
    assert_eq!(values_ref.get_type(), qtype::LONG_LIST);
    assert_eq!(values_ref.as_vec_long().unwrap()[0], 10);
}

#[test]
fn test_dictionary_index_write() {
    let mut d = dict(syms(&["x"]), K::new_long_list(vec![42], qattribute::NONE));

    *d.try_index_mut(1).unwrap() = K::new_long_list(vec![100], qattribute::NONE);

    let new_values = d.try_index(1).unwrap();
    assert_eq!(new_values.as_vec_long().unwrap()[0], 100);
}

#[test]
fn test_table_column_index() {
    let t = table(&[("fruit", syms(&["apple", "banana"])), ("price", float_list(&[1.5, 2.3]))]);

    let fruits = t.try_column("fruit").unwrap();
    let prices = t.try_column("price").unwrap();

    assert_eq!(fruits.get_type(), qtype::SYMBOL_LIST);
    assert_eq!(prices.get_type(), qtype::FLOAT_LIST);
}

#[test]
fn test_table_column_index_mut() {
    let mut t = table(&[("price", float_list(&[1.5]))]);

    *t.try_column_mut("price").unwrap() = float_list(&[2.0]);

    let new_prices = t.try_column("price").unwrap();
    assert_eq!(f64::from_bits(new_prices.as_vec_float().unwrap()[0]), 2.0);
}

#[test]
fn test_try_index_safe() {
    let d = dict(syms(&["x"]), K::new_long_list(vec![42], qattribute::NONE));

    assert!(d.try_index(0).is_ok());
    assert!(d.try_index(1).is_ok());
    assert!(d.try_index(2).is_err()); // out of bounds
}

#[test]
fn test_try_column_safe() {
    let t = table(&[("price", float_list(&[1.5]))]);

    assert!(t.try_column("price").is_ok());
    assert!(t.try_column("nonexistent").is_err());
}

#[test]
fn test_compound_list_try_index() {
    let list = K::new_compound_list(vec![
        K::new_long(42),
        K::new_float(3.14f64.to_bits()),
        K::new_symbol("test".to_string()),
    ]);

    assert!(list.try_index(0).is_ok());
    assert!(list.try_index(1).is_ok());
    assert!(list.try_index(2).is_ok());
    assert!(list.try_index(3).is_err());
}

#[test]
fn test_dictionary_lookup_by_key() {
    let d = dict(
        syms(&["apple", "banana", "cherry"]),
        K::new_compound_list(vec![K::new_long(10), K::new_long(20), K::new_long(30)]),
    );

    let key1 = K::new_symbol("apple".to_string());
    let value1 = d.try_find(&key1).unwrap();
    assert_eq!(value1.get_long().unwrap(), 10);

    let key2 = K::new_symbol("cherry".to_string());
    let value2 = d.try_find(&key2).unwrap();
    assert_eq!(value2.get_long().unwrap(), 30);
}

#[test]
fn test_dictionary_lookup_int_keys() {
    let d = dict(
        K::new_int_list(vec![1, 2, 3], qattribute::NONE),
        K::new_compound_list(vec![
            K::new_symbol("one".to_string()),
            K::new_symbol("two".to_string()),
            K::new_symbol("three".to_string()),
        ]),
    );

    let key = K::new_int(2);
    let value = d.try_find(&key).unwrap();
    assert_eq!(value.get_symbol().unwrap(), "two");
}

#[test]
fn test_dictionary_lookup_long_keys() {
    let d = dict(
        K::new_long_list(vec![100, 200, 300], qattribute::NONE),
        K::new_compound_list(vec![
            K::new_float(1.1f64.to_bits()),
            K::new_float(2.2f64.to_bits()),
            K::new_float(3.3f64.to_bits()),
        ]),
    );

    let key = K::new_long(200);
    let value = d.try_find(&key).unwrap();
    assert!((f64::from_bits(value.get_float().unwrap()) - 2.2).abs() < f64::EPSILON);
}

#[test]
fn test_dictionary_lookup_by_key_mut() {
    let mut d = dict(
        syms(&["a", "b", "c"]),
        K::new_compound_list(vec![K::new_int(10), K::new_int(20), K::new_int(30)]),
    );

    let key = K::new_symbol("b".to_string());
    *d.try_find_mut(&key).unwrap() = K::new_int(99);

    assert_eq!(d.try_find(&key).unwrap().get_int().unwrap(), 99);
}

#[test]
fn test_try_find_mut_safe() {
    let mut d = dict(
        syms(&["x", "y", "z"]),
        K::new_compound_list(vec![
            K::new_float(1.0f64.to_bits()),
            K::new_float(2.0f64.to_bits()),
            K::new_float(3.0f64.to_bits()),
        ]),
    );

    let key = K::new_symbol("y".to_string());
    if let Ok(value) = d.try_find_mut(&key) {
        *value = K::new_float(9.9f64.to_bits());
    }

    assert!(
        (f64::from_bits(d.try_find(&key).unwrap().get_float().unwrap()) - 9.9).abs()
            < f64::EPSILON
    );
}

#[test]
fn test_try_find_safe() {
    let d = dict(
        syms(&["x", "y", "z"]),
        K::new_compound_list(vec![K::new_long(1), K::new_long(2), K::new_long(3)]),
    );

    let key1 = K::new_symbol("y".to_string());
    assert!(d.try_find(&key1).is_ok());
    assert_eq!(d.try_find(&key1).unwrap().get_long().unwrap(), 2);

    let missing_key = K::new_symbol("missing".to_string());
    assert!(d.try_find(&missing_key).is_err());
}

#[test]
fn test_try_find_owned_with_typed_list() {
    // typed list values (long list)
    let d = dict(syms(&["a", "b", "c"]), K::new_long_list(vec![10, 20, 30], qattribute::NONE));

    let key = K::new_symbol("b".to_string());
    let value = d.try_find_owned(&key).unwrap();
    assert_eq!(value.get_long().unwrap(), 20);

    // symbol list values
    let d2 = dict(K::new_int_list(vec![1, 2, 3], qattribute::NONE), syms(&["one", "two", "three"]));

    let key2 = K::new_int(2);
    let value2 = d2.try_find_owned(&key2).unwrap();
    assert_eq!(value2.get_symbol().unwrap(), "two");
}

#[test]
fn test_try_find_owned_with_compound_list() {
    let d = dict(
        syms(&["x", "y"]),
        K::new_compound_list(vec![K::new_float(1.5f64.to_bits()), K::new_float(2.5f64.to_bits())]),
    );

    let key = K::new_symbol("y".to_string());
    let value = d.try_find_owned(&key).unwrap();
    assert!((f64::from_bits(value.get_float().unwrap()) - 2.5).abs() < f64::EPSILON);
}

#[test]
fn test_set_value_typed_list() {
    // float list values
    let mut d = dict(syms(&["apple", "banana", "cherry"]), float_list(&[1.5, 0.8, 2.3]));

    let key = K::new_symbol("banana".to_string());
    d.set_value(&key, K::new_float(1.2f64.to_bits())).unwrap();

    let updated_value = d.try_find_owned(&key).unwrap();
    assert!((f64::from_bits(updated_value.get_float().unwrap()) - 1.2).abs() < f64::EPSILON);

    // type mismatch is refused (the list type is kept, never widened)
    assert!(d.set_value(&key, K::new_long(100)).is_err());

    // long list values
    let mut d2 = dict(
        K::new_int_list(vec![1, 2, 3], qattribute::NONE),
        K::new_long_list(vec![100, 200, 300], qattribute::NONE),
    );

    d2.set_value(&K::new_int(2), K::new_long(250)).unwrap();
    let updated_value2 = d2.try_find_owned(&K::new_int(2)).unwrap();
    assert_eq!(updated_value2.get_long().unwrap(), 250);
}

#[test]
fn test_set_value_compound_list() {
    let mut d = dict(
        syms(&["a", "b", "c"]),
        K::new_compound_list(vec![K::new_int(10), K::new_int(20), K::new_int(30)]),
    );

    let key = K::new_symbol("b".to_string());
    d.set_value(&key, K::new_int(99)).unwrap();

    let updated_value = d.try_find(&key).unwrap();
    assert_eq!(updated_value.get_int().unwrap(), 99);
}
