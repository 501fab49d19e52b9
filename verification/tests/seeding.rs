use migration_sim::migration::MigrationError;
use migration_sim::seeding::{storage_key_of, storage_value_of, StorageValue};
use migration_sim::value::{StateValue, StructFields};

fn sym(s: &str) -> StorageValue {
    StorageValue::Symbol(s.to_string())
}

#[test]
fn scalars_keep_their_values() {
    assert_eq!(storage_value_of(&StateValue::U32(7)).unwrap(), StorageValue::U32(7));
    assert_eq!(storage_value_of(&StateValue::U64(9)).unwrap(), StorageValue::U64(9));
    assert_eq!(storage_value_of(&StateValue::Bool(true)).unwrap(), StorageValue::Bool(true));
    assert_eq!(storage_value_of(&StateValue::Symbol("ok".to_string())).unwrap(), sym("ok"));
    assert_eq!(
        storage_value_of(&StateValue::Address("GABC".to_string())).unwrap(),
        StorageValue::Address("GABC".to_string())
    );
}

#[test]
fn hex_bytes_are_decoded() {
    let v = storage_value_of(&StateValue::Bytes("0aFf10".to_string())).unwrap();
    assert_eq!(v, StorageValue::Bytes(vec![0x0a, 0xff, 0x10]));
    assert_eq!(storage_value_of(&StateValue::Bytes(String::new())).unwrap(), StorageValue::Bytes(vec![]));
}

#[test]
fn invalid_hex_is_a_conversion_failure() {
    let odd = storage_value_of(&StateValue::Bytes("abc".to_string()));
    assert!(matches!(odd, Err(MigrationError::StateConversionFailure(_))));
    let bad = storage_value_of(&StateValue::Bytes("zz".to_string()));
    assert!(matches!(bad, Err(MigrationError::StateConversionFailure(m))
        if m == "Invalid hex bytes: InvalidHexCharacter { c: 'z', index: 0 }"));
    assert!(matches!(storage_value_of(&StateValue::Bytes("abc".to_string())),
        Err(MigrationError::StateConversionFailure(m)) if m == "Invalid hex bytes: OddLength"));
    let nested = StateValue::Vec(vec![StateValue::U32(1), StateValue::Bytes("g0".to_string())]);
    assert!(matches!(storage_value_of(&nested), Err(MigrationError::StateConversionFailure(_))));
}

#[test]
fn options_become_void_or_their_content() {
    assert_eq!(storage_value_of(&StateValue::Option(None)).unwrap(), StorageValue::Void);
    let some = StateValue::Option(Some(Box::new(StateValue::U32(5))));
    assert_eq!(storage_value_of(&some).unwrap(), StorageValue::U32(5));
}

#[test]
fn structs_become_maps_with_symbol_keys() {
    let mut fields = StructFields::new();
    fields.insert("owner".to_string(), StateValue::Symbol("alice".to_string()));
    fields.insert("amount".to_string(), StateValue::U64(100));
    let v = storage_value_of(&StateValue::Struct(fields)).unwrap();
    assert_eq!(
        v,
        StorageValue::Mapping(vec![
            (sym("amount"), StorageValue::U64(100)),
            (sym("owner"), sym("alice")),
        ])
    );
}

#[test]
fn vecs_and_maps_convert_item_by_item() {
    let v = StateValue::Vec(vec![StateValue::U32(1), StateValue::Option(None)]);
    assert_eq!(
        storage_value_of(&v).unwrap(),
        StorageValue::Vec(vec![StorageValue::U32(1), StorageValue::Void])
    );
    let m = StateValue::Mapping(vec![(StateValue::U32(1), StateValue::Bytes("01".to_string()))]);
    assert_eq!(
        storage_value_of(&m).unwrap(),
        StorageValue::Mapping(vec![(StorageValue::U32(1), StorageValue::Bytes(vec![1]))])
    );
}

#[test]
fn storage_keys_carry_the_prefix() {
    let k = storage_key_of(&StateValue::Address("GABC".to_string()), &"Record".to_string()).unwrap();
    assert_eq!(k, StorageValue::Vec(vec![sym("Record"), StorageValue::Address("GABC".to_string())]));
    let k = storage_key_of(&StateValue::U32(3), &"Counter".to_string()).unwrap();
    assert_eq!(k, StorageValue::Vec(vec![sym("Counter"), StorageValue::U32(3)]));
    let k = storage_key_of(&StateValue::Symbol("x".to_string()), &"Flag".to_string()).unwrap();
    assert_eq!(k, StorageValue::Vec(vec![sym("Flag"), sym("x")]));
}

#[test]
fn unsupported_key_kinds_are_refused() {
    let r = storage_key_of(&StateValue::Bool(true), &"Record".to_string());
    assert!(matches!(r, Err(MigrationError::StateConversionFailure(m)) if m == "Unsupported key type for storage key: Bool(true)"));
    let r = storage_key_of(&StateValue::Option(None), &"Record".to_string());
    assert!(matches!(r, Err(MigrationError::StateConversionFailure(m)) if m == "Unsupported key type for storage key: Option(None)"));
    let v = StateValue::Vec(vec![StateValue::U64(5), StateValue::Bytes("a\"b".to_string())]);
    let r = storage_key_of(&v, &"K".to_string());
    assert!(matches!(r, Err(MigrationError::StateConversionFailure(m))
        if m == "Unsupported key type for storage key: Vec([U64(5), Bytes(\"a\\\"b\")])"));
    let m = StateValue::Mapping(vec![(StateValue::Symbol("k".to_string()), StateValue::Option(Some(Box::new(StateValue::U32(1)))))]);
    let r = storage_key_of(&m, &"K".to_string());
    assert!(matches!(r, Err(MigrationError::StateConversionFailure(t))
        if t == "Unsupported key type for storage key: Map([(Symbol(\"k\"), Option(Some(U32(1))))])"));
    let mut fields = StructFields::new();
    fields.insert("b".to_string(), StateValue::Bool(false));
    fields.insert("a".to_string(), StateValue::U32(1));
    let v = StateValue::Vec(vec![StateValue::Struct(fields), StateValue::Struct(StructFields::new())]);
    let r = storage_key_of(&v, &"K".to_string());
    assert!(matches!(r, Err(MigrationError::StateConversionFailure(t))
        if t == "Unsupported key type for storage key: Vec([Struct({\"a\": U32(1), \"b\": Bool(false)}), Struct({})])"));
}

#[test]
fn struct_keys_are_stored_as_maps_of_their_fields() {
    let mut fields = StructFields::new();
    fields.insert("owner".to_string(), StateValue::Address("GABC".to_string()));
    fields.insert("id".to_string(), StateValue::U32(4));
    let k = storage_key_of(&StateValue::Struct(fields), &"Record".to_string()).unwrap();
    assert_eq!(
        k,
        StorageValue::Vec(vec![
            sym("Record"),
            StorageValue::Mapping(vec![
                (sym("id"), StorageValue::U32(4)),
                (sym("owner"), StorageValue::Address("GABC".to_string())),
            ]),
        ])
    );
    let mut bad = StructFields::new();
    bad.insert("data".to_string(), StateValue::Bytes("xy".to_string()));
    let r = storage_key_of(&StateValue::Struct(bad), &"Record".to_string());
    assert!(matches!(r, Err(MigrationError::StateConversionFailure(m)) if m.starts_with("Invalid hex bytes: ")));
}
