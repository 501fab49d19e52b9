use migration_sim::analysis::{ContractAnalysis, FieldAnalysis, FunctionAnalysis, TypeAnalysis, TypeRef};
use migration_sim::storage::{
    resolve_struct, Confidence, Durability, FieldChange, StorageAnalysis, StorageAnalyzer, StorageDiff,
    StorageEntry,
};

fn simple(s: &str) -> TypeRef {
    TypeRef::Simple(s.to_string())
}

fn complex(s: &str) -> TypeRef {
    TypeRef::Complex(s.to_string())
}

fn field(name: &str, t: TypeRef) -> FieldAnalysis {
    FieldAnalysis { name: name.to_string(), type_ref: t }
}

fn function(name: &str, inputs: Vec<FieldAnalysis>, outputs: Vec<TypeRef>) -> FunctionAnalysis {
    FunctionAnalysis { name: name.to_string(), inputs, outputs }
}

fn struct_type(name: &str, fields: Vec<FieldAnalysis>) -> TypeAnalysis {
    TypeAnalysis { name: name.to_string(), description: "struct".to_string(), fields }
}

fn contract(functions: Vec<FunctionAnalysis>) -> ContractAnalysis {
    ContractAnalysis {
        has_metadata: false,
        has_env_metadata: false,
        env_metadata: None,
        metadata: None,
        functions,
        types: vec![],
    }
}

fn entry(namespace: &str, value_type: TypeRef) -> StorageEntry {
    StorageEntry {
        key_type: simple("Address"),
        value_type,
        durability: Durability::Unknown,
        confidence: Confidence::Inferred,
        namespace: namespace.to_string(),
    }
}

#[test]
fn test_d_unknown_information() {
    let mock_contract = ContractAnalysis {
        has_metadata: false,
        has_env_metadata: false,
        env_metadata: None,
        metadata: None,
        functions: vec![],
        types: vec![],
    };
    let storage = StorageAnalyzer::analyze(&mock_contract).unwrap();
    assert!(storage.entries.is_empty());
}

#[test]
fn accessors_become_entries() {
    let c = contract(vec![
        function("get_record", vec![field("owner", simple("Address"))], vec![complex("Option<Record>")]),
        function("set_record", vec![field("owner", simple("Address"))], vec![]),
        function("get_balance", vec![], vec![complex("Result<i128, Error>")]),
        function("get_admin", vec![], vec![]),
        function("get_count", vec![field("id", simple("u32"))], vec![simple("u64")]),
        function("get_nested", vec![], vec![complex("Option<Option<Vec<u32>>>")]),
    ]);
    let s = StorageAnalyzer::analyze(&c).unwrap();
    assert_eq!(s.entries.len(), 5);
    assert_eq!(s.entries[0], entry("record", complex("Record")));
    assert_eq!(s.entries[1].namespace, "balance");
    assert_eq!(s.entries[1].key_type, TypeRef::Unknown);
    assert_eq!(s.entries[1].value_type, complex("i128"));
    assert_eq!(s.entries[2].namespace, "admin");
    assert_eq!(s.entries[2].value_type, TypeRef::Unknown);
    assert_eq!(s.entries[3].key_type, simple("u32"));
    assert_eq!(s.entries[3].value_type, simple("u64"));
    assert_eq!(s.entries[4].value_type, complex("Option<Vec<u32>>"));
    for e in &s.entries {
        assert_eq!(e.durability, Durability::Unknown);
        assert_eq!(e.confidence, Confidence::Inferred);
    }
}

#[test]
fn record_migration_adds_version() {
    let old = StorageAnalysis { entries: vec![entry("record", complex("Record"))] };
    let new = StorageAnalysis { entries: vec![entry("record", complex("RecordV2"))] };
    let old_types = vec![struct_type("Record", vec![field("owner", simple("Address")), field("value", simple("u64"))])];
    let new_types = vec![struct_type(
        "RecordV2",
        vec![field("owner", simple("Address")), field("value", simple("i128")), field("version", simple("u32"))],
    )];
    let diff = StorageDiff::compare(&old, &new, &old_types, &new_types);
    assert_eq!(
        diff.changed_value_types,
        vec![
            FieldChange::Preserved { name: "owner".to_string() },
            FieldChange::TypeChanged { name: "value".to_string(), old_type: simple("u64"), new_type: simple("i128") },
            FieldChange::Added { name: "version".to_string(), type_ref: simple("u32") },
        ]
    );
}

#[test]
fn removed_fields_and_unmatched_namespaces() {
    let old = StorageAnalysis { entries: vec![entry("record", complex("Record")), entry("gone", complex("Record"))] };
    let new = StorageAnalysis { entries: vec![entry("record", complex("Slim"))] };
    let old_types = vec![struct_type("Record", vec![field("a", simple("u32")), field("b", simple("u32"))])];
    let new_types = vec![struct_type("Slim", vec![field("a", simple("u32"))])];
    let diff = StorageDiff::compare(&old, &new, &old_types, &new_types);
    assert_eq!(
        diff.changed_value_types,
        vec![
            FieldChange::Preserved { name: "a".to_string() },
            FieldChange::Removed { name: "b".to_string(), type_ref: simple("u32") },
        ]
    );
}

#[test]
fn unresolved_value_types_give_no_changes() {
    let old = StorageAnalysis { entries: vec![entry("record", simple("u64"))] };
    let new = StorageAnalysis { entries: vec![entry("record", complex("Missing"))] };
    let diff = StorageDiff::compare(&old, &new, &[], &[]);
    assert!(diff.changed_value_types.is_empty());
}

#[test]
fn comparing_with_itself_preserves_every_field() {
    let s = StorageAnalysis { entries: vec![entry("record", complex("Record")), entry("meta", complex("Meta"))] };
    let types = vec![
        struct_type("Record", vec![field("owner", simple("Address")), field("value", simple("u64"))]),
        struct_type("Meta", vec![field("tag", simple("symbol"))]),
    ];
    let diff = StorageDiff::compare(&s, &s, &types, &types);
    assert_eq!(diff.changed_value_types.len(), 3);
    assert!(diff.changed_value_types.iter().all(|c| matches!(c, FieldChange::Preserved { .. })));
}

#[test]
fn resolve_struct_takes_the_first_type_of_the_name() {
    let types = vec![
        struct_type("Record", vec![field("a", simple("u32"))]),
        struct_type("Record", vec![field("b", simple("u32"))]),
    ];
    let fields = resolve_struct(&complex("Record"), &types).unwrap();
    assert_eq!(fields, vec![field("a", simple("u32"))]);
    assert!(resolve_struct(&simple("Record"), &types).is_none());
    assert!(resolve_struct(&complex("Other"), &types).is_none());
    assert!(resolve_struct(&TypeRef::Unknown, &types).is_none());
}

#[test]
fn nested_option_payload_keeps_inner_brackets() {
    let c = contract(vec![function("get_items", vec![], vec![complex("Option<Vec<u32>>")])]);
    let a = StorageAnalyzer::analyze(&c).unwrap();
    assert_eq!(a.entries.len(), 1);
    assert_eq!(a.entries[0].value_type, complex("Vec<u32>"));
    assert_eq!(a.entries[0].key_type, TypeRef::Unknown);
    assert_eq!(a.entries[0].namespace, "items");
}

#[test]
fn result_payload_cut_at_top_level_comma() {
    let c = contract(vec![function(
        "get_table",
        vec![field("k", simple("u32"))],
        vec![complex("Result<Map<u32, u32>, Error>")],
    )]);
    let a = StorageAnalyzer::analyze(&c).unwrap();
    assert_eq!(a.entries[0].value_type, complex("Map<u32, u32>"));
    assert_eq!(a.entries[0].key_type, simple("u32"));
}

#[test]
fn shared_namespace_with_same_type_still_preserves() {
    let s = StorageAnalysis { entries: vec![entry("record", complex("Record")), entry("record", complex("Record"))] };
    let types = vec![struct_type("Record", vec![field("owner", simple("Address"))])];
    let diff = StorageDiff::compare(&s, &s, &types, &types);
    assert_eq!(diff.changed_value_types.len(), 2);
    assert!(diff.changed_value_types.iter().all(|c| matches!(c, FieldChange::Preserved { .. })));
}

#[test]
fn shared_namespace_resolving_alike_or_not_at_all_still_preserves() {
    let s = StorageAnalysis {
        entries: vec![
            entry("record", complex("Record")),
            entry("record", complex("RecordCopy")),
            entry("record", complex("Missing")),
        ],
    };
    let fields = vec![field("owner", simple("Address")), field("value", simple("u64"))];
    let types = vec![struct_type("Record", fields.clone()), struct_type("RecordCopy", fields)];
    let diff = StorageDiff::compare(&s, &s, &types, &types);
    assert_eq!(diff.changed_value_types.len(), 4);
    assert!(diff.changed_value_types.iter().all(|c| matches!(c, FieldChange::Preserved { .. })));
}
