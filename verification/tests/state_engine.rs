use migration_sim::diff::StateDiff;
use migration_sim::entry::{Durability, StateEntry};
use migration_sim::nested::{compute_nested_changes, NestedChange};
use migration_sim::state::{ContractState, StateError};
use migration_sim::value::{StateValue, StructFields};
use serde_json::Value;

/// Reads a value written as `{ "type": .., "value": .. }`.
fn value_from(v: &Value) -> StateValue {
    let inner = &v["value"];
    match v["type"].as_str().unwrap() {
        "Address" => StateValue::Address(inner.as_str().unwrap().to_string()),
        "U32" => StateValue::U32(inner.as_u64().unwrap() as u32),
        "U64" => StateValue::U64(inner.as_u64().unwrap()),
        "Bool" => StateValue::Bool(inner.as_bool().unwrap()),
        "Symbol" => StateValue::Symbol(inner.as_str().unwrap().to_string()),
        "Bytes" => StateValue::Bytes(inner.as_str().unwrap().to_string()),
        "Struct" => {
            let mut fields = StructFields::new();
            for (name, x) in inner.as_object().unwrap() {
                fields.insert(name.clone(), value_from(x));
            }
            StateValue::Struct(fields)
        }
        "Map" => StateValue::Mapping(
            inner
                .as_array()
                .unwrap()
                .iter()
                .map(|p| (value_from(&p[0]), value_from(&p[1])))
                .collect(),
        ),
        "Vec" => StateValue::Vec(inner.as_array().unwrap().iter().map(value_from).collect()),
        "Option" => {
            if inner.is_null() {
                StateValue::Option(None)
            } else {
                StateValue::Option(Some(Box::new(value_from(inner))))
            }
        }
        other => panic!("unknown value type {}", other),
    }
}

/// Builds a state from its JSON form.
fn state_from_json(json: &str) -> Result<ContractState, StateError> {
    let v: Value = serde_json::from_str(json).unwrap();
    let entries = v["entries"]
        .as_array()
        .unwrap()
        .iter()
        .map(|e| StateEntry {
            durability: match e["durability"].as_str().unwrap() {
                "Persistent" => Durability::Persistent,
                "Instance" => Durability::Instance,
                "Temporary" => Durability::Temporary,
                other => panic!("unknown durability {}", other),
            },
            key: value_from(&e["key"]),
            value: value_from(&e["value"]),
        })
        .collect();
    ContractState::new(v["contract_id"].as_str().unwrap().to_string(), entries)
}

fn dummy_v1_json() -> String {
    r#"{
        "contract_id": "CAAAAAAAAAAAAAAAAAAAAAAAAAAAAAAAAAAAAAAAAAAAAAAAAAAAD2KM",
        "entries": [
            {
                "durability": "Persistent",
                "key": { "type": "Address", "value": "GAAAAAAAAAAAAAAAAAAAAAAAAAAAAAAAAAAAAAAAAAAAAAAAAAAAAWHF" },
                "value": {
                    "type": "Struct",
                    "value": {
                        "owner": { "type": "Address", "value": "GAAAAAAAAAAAAAAAAAAAAAAAAAAAAAAAAAAAAAAAAAAAAAAAAAAAAWHF" },
                        "value": { "type": "U64", "value": 100 }
                    }
                }
            }
        ]
    }"#
    .to_string()
}

fn dummy_v2_json() -> String {
    r#"{
        "contract_id": "CAAAAAAAAAAAAAAAAAAAAAAAAAAAAAAAAAAAAAAAAAAAAAAAAAAAD2KM",
        "entries": [
            {
                "durability": "Persistent",
                "key": { "type": "Address", "value": "GAAAAAAAAAAAAAAAAAAAAAAAAAAAAAAAAAAAAAAAAAAAAAAAAAAAAWHF" },
                "value": {
                    "type": "Struct",
                    "value": {
                        "owner": { "type": "Address", "value": "GAAAAAAAAAAAAAAAAAAAAAAAAAAAAAAAAAAAAAAAAAAAAAAAAAAAAWHF" },
                        "value": { "type": "U64", "value": 100 },
                        "version": { "type": "U32", "value": 2 }
                    }
                }
            }
        ]
    }"#
    .to_string()
}

fn entry(durability: Durability, key: u32, value: u64) -> StateEntry {
    StateEntry { durability, key: StateValue::U32(key), value: StateValue::U64(value) }
}

#[test]
fn test_a_identical_states() {
    let state = state_from_json(&dummy_v1_json()).unwrap();
    let diff = state.diff(&state);

    assert_eq!(diff.added_count(), 0);
    assert_eq!(diff.removed_count(), 0);
    assert_eq!(diff.modified_count(), 0);
    assert_eq!(diff.unchanged_count(), 1);
    assert!(!diff.has_changes());
}

#[test]
fn test_b_added_entry() {
    let pre = state_from_json(&dummy_v1_json()).unwrap();

    let post_json = r#"{
        "contract_id": "CAAAAAAAAAAAAAAAAAAAAAAAAAAAAAAAAAAAAAAAAAAAAAAAAAAAD2KM",
        "entries": [
            {
                "durability": "Persistent",
                "key": { "type": "Address", "value": "GAAAAAAAAAAAAAAAAAAAAAAAAAAAAAAAAAAAAAAAAAAAAAAAAAAAAWHF" },
                "value": {
                    "type": "Struct",
                    "value": {
                        "owner": { "type": "Address", "value": "GAAAAAAAAAAAAAAAAAAAAAAAAAAAAAAAAAAAAAAAAAAAAAAAAAAAAWHF" },
                        "value": { "type": "U64", "value": 100 }
                    }
                }
            },
            {
                "durability": "Persistent",
                "key": { "type": "U32", "value": 42 },
                "value": { "type": "U64", "value": 999 }
            }
        ]
    }"#;
    let post = state_from_json(post_json).unwrap();
    let diff = pre.diff(&post);

    assert_eq!(diff.added_count(), 1);
    assert_eq!(diff.removed_count(), 0);
    assert_eq!(diff.modified_count(), 0);
    assert_eq!(diff.unchanged_count(), 1);
    assert!(diff.has_changes());
    assert_eq!(diff.added[0].key, StateValue::U32(42));
    assert_eq!(diff.added[0].value, StateValue::U64(999));
}

#[test]
fn test_c_removed_entry() {
    let pre_json = r#"{
        "contract_id": "CAAAAAAAAAAAAAAAAAAAAAAAAAAAAAAAAAAAAAAAAAAAAAAAAAAAD2KM",
        "entries": [
            {
                "durability": "Persistent",
                "key": { "type": "Address", "value": "GAAAAAAAAAAAAAAAAAAAAAAAAAAAAAAAAAAAAAAAAAAAAAAAAAAAAWHF" },
                "value": {
                    "type": "Struct",
                    "value": {
                        "owner": { "type": "Address", "value": "GAAAAAAAAAAAAAAAAAAAAAAAAAAAAAAAAAAAAAAAAAAAAAAAAAAAAWHF" },
                        "value": { "type": "U64", "value": 100 }
                    }
                }
            },
            {
                "durability": "Persistent",
                "key": { "type": "U32", "value": 42 },
                "value": { "type": "U64", "value": 999 }
            }
        ]
    }"#;
    let pre = state_from_json(pre_json).unwrap();
    let post = state_from_json(&dummy_v1_json()).unwrap();
    let diff = pre.diff(&post);

    assert_eq!(diff.added_count(), 0);
    assert_eq!(diff.removed_count(), 1);
    assert_eq!(diff.modified_count(), 0);
    assert_eq!(diff.unchanged_count(), 1);
    assert!(diff.has_changes());
    assert_eq!(diff.removed[0].key, StateValue::U32(42));
}

#[test]
fn test_d_modified_entry() {
    let pre_json = r#"{
        "contract_id": "C1",
        "entries": [
            {
                "durability": "Persistent",
                "key": { "type": "U32", "value": 1 },
                "value": { "type": "U64", "value": 100 }
            }
        ]
    }"#;
    let post_json = r#"{
        "contract_id": "C1",
        "entries": [
            {
                "durability": "Persistent",
                "key": { "type": "U32", "value": 1 },
                "value": { "type": "U64", "value": 200 }
            }
        ]
    }"#;

    let pre = state_from_json(pre_json).unwrap();
    let post = state_from_json(post_json).unwrap();
    let diff = pre.diff(&post);

    assert_eq!(diff.added_count(), 0);
    assert_eq!(diff.removed_count(), 0);
    assert_eq!(diff.modified_count(), 1);
    assert_eq!(diff.unchanged_count(), 0);
    assert!(diff.has_changes());
    assert_eq!(diff.modified[0].before, StateValue::U64(100));
    assert_eq!(diff.modified[0].after, StateValue::U64(200));
}

#[test]
fn test_e_mixed_changes() {
    let pre_json = r#"{
        "contract_id": "C1",
        "entries": [
            { "durability": "Persistent", "key": { "type": "U32", "value": 1 }, "value": { "type": "U64", "value": 100 } },
            { "durability": "Persistent", "key": { "type": "U32", "value": 2 }, "value": { "type": "U64", "value": 200 } },
            { "durability": "Persistent", "key": { "type": "U32", "value": 3 }, "value": { "type": "U64", "value": 300 } }
        ]
    }"#;
    let post_json = r#"{
        "contract_id": "C1",
        "entries": [
            { "durability": "Persistent", "key": { "type": "U32", "value": 1 }, "value": { "type": "U64", "value": 100 } },
            { "durability": "Persistent", "key": { "type": "U32", "value": 2 }, "value": { "type": "U64", "value": 999 } },
            { "durability": "Persistent", "key": { "type": "U32", "value": 4 }, "value": { "type": "U64", "value": 400 } }
        ]
    }"#;

    let pre = state_from_json(pre_json).unwrap();
    let post = state_from_json(post_json).unwrap();
    let diff = pre.diff(&post);

    assert_eq!(diff.added_count(), 1);
    assert_eq!(diff.removed_count(), 1);
    assert_eq!(diff.modified_count(), 1);
    assert_eq!(diff.unchanged_count(), 1);
    assert!(diff.has_changes());

    assert_eq!(diff.added[0].key, StateValue::U32(4));
    assert_eq!(diff.removed[0].key, StateValue::U32(3));
    assert_eq!(diff.modified[0].key, StateValue::U32(2));
}

#[test]
fn test_f_reordered_entries() {
    let pre_json = r#"{
        "contract_id": "C1",
        "entries": [
            { "durability": "Persistent", "key": { "type": "U32", "value": 2 }, "value": { "type": "U64", "value": 200 } },
            { "durability": "Persistent", "key": { "type": "U32", "value": 1 }, "value": { "type": "U64", "value": 100 } }
        ]
    }"#;
    let post_json = r#"{
        "contract_id": "C1",
        "entries": [
            { "durability": "Persistent", "key": { "type": "U32", "value": 1 }, "value": { "type": "U64", "value": 100 } },
            { "durability": "Persistent", "key": { "type": "U32", "value": 2 }, "value": { "type": "U64", "value": 200 } }
        ]
    }"#;

    let pre = state_from_json(pre_json).unwrap();
    let post = state_from_json(post_json).unwrap();
    let diff = pre.diff(&post);

    assert!(!diff.has_changes());
    assert_eq!(diff.unchanged_count(), 2);

    let diff2 = post.diff(&pre);
    assert!(!diff2.has_changes());
    assert_eq!(diff2.unchanged_count(), 2);
}

#[test]
fn test_g_nested_struct_modification() {
    let pre = state_from_json(&dummy_v1_json()).unwrap();
    let post = state_from_json(&dummy_v2_json()).unwrap();
    let diff = pre.diff(&post);

    assert_eq!(diff.modified_count(), 1);
    let modified = &diff.modified[0];

    assert!(!modified.nested_changes.is_empty());
    let has_added = modified.nested_changes.iter().any(
        |c| matches!(c, NestedChange::FieldAdded { field_name, .. } if field_name == "version"),
    );
    assert!(has_added, "Should detect 'version' field addition");
}

#[test]
fn test_h_nested_collection_modification() {
    let pre_json = r#"{
        "contract_id": "C1",
        "entries": [
            {
                "durability": "Persistent",
                "key": { "type": "U32", "value": 1 },
                "value": { "type": "Vec", "value": [
                    { "type": "U64", "value": 10 },
                    { "type": "U64", "value": 20 },
                    { "type": "U64", "value": 30 }
                ]}
            }
        ]
    }"#;
    let post_json = r#"{
        "contract_id": "C1",
        "entries": [
            {
                "durability": "Persistent",
                "key": { "type": "U32", "value": 1 },
                "value": { "type": "Vec", "value": [
                    { "type": "U64", "value": 10 },
                    { "type": "U64", "value": 99 },
                    { "type": "U64", "value": 30 },
                    { "type": "U64", "value": 40 }
                ]}
            }
        ]
    }"#;

    let pre = state_from_json(pre_json).unwrap();
    let post = state_from_json(post_json).unwrap();
    let diff = pre.diff(&post);

    assert_eq!(diff.modified_count(), 1);
    let modified = &diff.modified[0];

    assert_eq!(modified.nested_changes.len(), 2);
    let has_item_modified = modified
        .nested_changes
        .iter()
        .any(|c| matches!(c, NestedChange::ItemModified { index: 1, .. }));
    assert!(has_item_modified, "Should detect index 1 modification");

    let has_item_added = modified
        .nested_changes
        .iter()
        .any(|c| matches!(c, NestedChange::ItemAdded { index: 3, .. }));
    assert!(has_item_added, "Should detect index 3 addition");
}

#[test]
fn test_i_v1_to_v2_migration() {
    let pre = state_from_json(&dummy_v1_json()).unwrap();
    let post = state_from_json(&dummy_v2_json()).unwrap();
    let diff = pre.diff(&post);

    assert_eq!(diff.added_count(), 0, "No entries added at top level");
    assert_eq!(diff.removed_count(), 0, "No entries removed at top level");
    assert_eq!(diff.modified_count(), 1, "Exactly 1 entry modified");
    assert_eq!(diff.unchanged_count(), 0, "No unchanged entries");

    let modified = &diff.modified[0];

    if let StateValue::Struct(before_fields) = &modified.before {
        assert_eq!(before_fields.len(), 2);
        assert!(before_fields.contains_key("owner"));
        assert!(before_fields.contains_key("value"));
        assert!(!before_fields.contains_key("version"));
    } else {
        panic!("Before value should be a Struct");
    }

    if let StateValue::Struct(after_fields) = &modified.after {
        assert_eq!(after_fields.len(), 3);
        assert!(after_fields.contains_key("owner"));
        assert!(after_fields.contains_key("value"));
        assert!(after_fields.contains_key("version"));
        assert_eq!(after_fields.get("version"), Some(&StateValue::U32(2)));
    } else {
        panic!("After value should be a Struct");
    }

    assert_eq!(modified.nested_changes.len(), 1);
    match &modified.nested_changes[0] {
        NestedChange::FieldAdded { field_name, value } => {
            assert_eq!(field_name, "version");
            assert_eq!(value, &StateValue::U32(2));
        }
        other => panic!("Expected FieldAdded, got {:?}", other),
    }
}

#[test]
fn test_c_canonical_ordering() {
    let entry1 = StateEntry {
        durability: Durability::Persistent,
        key: StateValue::U32(1),
        value: StateValue::U64(100),
    };
    let entry2 = StateEntry {
        durability: Durability::Instance,
        key: StateValue::U32(2),
        value: StateValue::U64(200),
    };

    let mut state_a =
        ContractState::new("C1".to_string(), vec![entry1.clone(), entry2.clone()]).unwrap();
    let mut state_b = ContractState::new("C1".to_string(), vec![entry2, entry1]).unwrap();

    state_a.canonicalize();
    state_b.canonicalize();

    assert_eq!(state_a.entries, state_b.entries);
}

#[test]
fn test_f_duplicate_key_detection() {
    let json = r#"{
        "contract_id": "C1",
        "entries": [
            { "durability": "Persistent", "key": { "type": "U32", "value": 1 }, "value": { "type": "U64", "value": 100 } },
            { "durability": "Persistent", "key": { "type": "U32", "value": 1 }, "value": { "type": "U64", "value": 200 } }
        ]
    }"#;

    let res = state_from_json(json);
    assert!(matches!(res, Err(StateError::DuplicateKey(_, _))));
}

#[test]
fn test_summary_methods() {
    let diff = StateDiff { added: vec![], removed: vec![], modified: vec![], unchanged: vec![] };
    assert_eq!(diff.added_count(), 0);
    assert_eq!(diff.removed_count(), 0);
    assert_eq!(diff.modified_count(), 0);
    assert_eq!(diff.unchanged_count(), 0);
    assert!(!diff.has_changes());
}

#[test]
fn test_has_changes_true() {
    let diff = StateDiff {
        added: vec![StateEntry {
            durability: Durability::Persistent,
            key: StateValue::U32(1),
            value: StateValue::U64(100),
        }],
        removed: vec![],
        modified: vec![],
        unchanged: vec![],
    };
    assert!(diff.has_changes());
}

#[test]
fn test_nested_struct_multiple_changes() {
    let pre_json = r#"{
        "contract_id": "C1",
        "entries": [
            {
                "durability": "Persistent",
                "key": { "type": "U32", "value": 1 },
                "value": {
                    "type": "Struct",
                    "value": {
                        "a": { "type": "U64", "value": 1 },
                        "b": { "type": "U64", "value": 2 },
                        "c": { "type": "U64", "value": 3 }
                    }
                }
            }
        ]
    }"#;
    let post_json = r#"{
        "contract_id": "C1",
        "entries": [
            {
                "durability": "Persistent",
                "key": { "type": "U32", "value": 1 },
                "value": {
                    "type": "Struct",
                    "value": {
                        "a": { "type": "U64", "value": 1 },
                        "b": { "type": "U64", "value": 99 },
                        "d": { "type": "U64", "value": 4 }
                    }
                }
            }
        ]
    }"#;

    let pre = state_from_json(pre_json).unwrap();
    let post = state_from_json(post_json).unwrap();
    let diff = pre.diff(&post);

    assert_eq!(diff.modified_count(), 1);
    let modified = &diff.modified[0];

    assert_eq!(modified.nested_changes.len(), 3);

    let has_c_removed = modified.nested_changes.iter().any(
        |c| matches!(c, NestedChange::FieldRemoved { field_name, .. } if field_name == "c"),
    );
    assert!(has_c_removed, "Should detect 'c' field removal");

    let has_b_modified = modified.nested_changes.iter().any(
        |c| matches!(c, NestedChange::FieldModified { field_name, .. } if field_name == "b"),
    );
    assert!(has_b_modified, "Should detect 'b' field modification");

    let has_d_added = modified
        .nested_changes
        .iter()
        .any(|c| matches!(c, NestedChange::FieldAdded { field_name, .. } if field_name == "d"));
    assert!(has_d_added, "Should detect 'd' field addition");
}

#[test]
fn test_nested_map_modification() {
    let pre_json = r#"{
        "contract_id": "C1",
        "entries": [
            {
                "durability": "Persistent",
                "key": { "type": "U32", "value": 1 },
                "value": {
                    "type": "Map",
                    "value": [
                        [{ "type": "Symbol", "value": "x" }, { "type": "U64", "value": 10 }],
                        [{ "type": "Symbol", "value": "y" }, { "type": "U64", "value": 20 }]
                    ]
                }
            }
        ]
    }"#;
    let post_json = r#"{
        "contract_id": "C1",
        "entries": [
            {
                "durability": "Persistent",
                "key": { "type": "U32", "value": 1 },
                "value": {
                    "type": "Map",
                    "value": [
                        [{ "type": "Symbol", "value": "x" }, { "type": "U64", "value": 10 }],
                        [{ "type": "Symbol", "value": "y" }, { "type": "U64", "value": 99 }],
                        [{ "type": "Symbol", "value": "z" }, { "type": "U64", "value": 30 }]
                    ]
                }
            }
        ]
    }"#;

    let pre = state_from_json(pre_json).unwrap();
    let post = state_from_json(post_json).unwrap();
    let diff = pre.diff(&post);

    assert_eq!(diff.modified_count(), 1);
    let modified = &diff.modified[0];

    assert_eq!(modified.nested_changes.len(), 2);

    let has_y_modified = modified.nested_changes.iter().any(|c| {
        matches!(c, NestedChange::MapEntryModified { key: StateValue::Symbol(s), .. } if s == "y")
    });
    assert!(has_y_modified, "Should detect 'y' map entry modification");

    let has_z_added = modified
        .nested_changes
        .iter()
        .any(|c| matches!(c, NestedChange::ItemAdded { .. }));
    assert!(has_z_added, "Should detect 'z' map entry addition");
}

// ─── Further cases ──────────────────────────────────────────────────────────

#[test]
fn canonical_order_sorts_by_durability_then_key() {
    let state = ContractState::new(
        "C1".to_string(),
        vec![
            entry(Durability::Temporary, 1, 1),
            entry(Durability::Persistent, 9, 2),
            entry(Durability::Instance, 3, 3),
            entry(Durability::Persistent, 2, 4),
        ],
    )
    .unwrap();
    let order: Vec<(Durability, StateValue)> =
        state.entries.iter().map(|e| (e.durability, e.key.clone())).collect();
    assert_eq!(
        order,
        vec![
            (Durability::Persistent, StateValue::U32(2)),
            (Durability::Persistent, StateValue::U32(9)),
            (Durability::Instance, StateValue::U32(3)),
            (Durability::Temporary, StateValue::U32(1)),
        ]
    );
}

#[test]
fn same_key_under_other_durability_is_no_duplicate() {
    let res = ContractState::new(
        "C1".to_string(),
        vec![entry(Durability::Persistent, 1, 1), entry(Durability::Temporary, 1, 2)],
    );
    assert!(res.is_ok());
}

#[test]
fn validate_reports_first_repeat() {
    let state = ContractState {
        contract_id: "C1".to_string(),
        entries: vec![
            entry(Durability::Persistent, 5, 1),
            entry(Durability::Persistent, 7, 2),
            entry(Durability::Persistent, 7, 3),
            entry(Durability::Persistent, 5, 4),
        ],
    };
    match state.validate() {
        Err(StateError::DuplicateKey(d, k)) => {
            assert_eq!(d, Durability::Persistent);
            assert_eq!(k, StateValue::U32(7));
        }
        other => panic!("expected a duplicate key, got {:?}", other),
    }
}

#[test]
fn diff_in_reverse_swaps_added_and_removed() {
    let a = ContractState::new(
        "C1".to_string(),
        vec![entry(Durability::Persistent, 1, 10), entry(Durability::Persistent, 2, 20)],
    )
    .unwrap();
    let b = ContractState::new(
        "C1".to_string(),
        vec![entry(Durability::Persistent, 2, 21), entry(Durability::Persistent, 3, 30)],
    )
    .unwrap();
    let forward = a.diff(&b);
    let backward = b.diff(&a);
    assert_eq!(forward.added, backward.removed);
    assert_eq!(forward.removed, backward.added);
    assert_eq!(forward.modified.len(), 1);
    assert_eq!(backward.modified.len(), 1);
    assert_eq!(forward.modified[0].before, backward.modified[0].after);
    assert_eq!(forward.modified[0].after, backward.modified[0].before);
    assert_eq!(forward.added_count() + forward.modified_count() + forward.unchanged_count(), b.entries.len());
    assert_eq!(forward.removed_count() + forward.modified_count() + forward.unchanged_count(), a.entries.len());
}

#[test]
fn diff_lists_follow_canonical_order() {
    let a = ContractState::new("C1".to_string(), vec![]).unwrap();
    let b = ContractState::new(
        "C1".to_string(),
        vec![
            entry(Durability::Temporary, 1, 1),
            entry(Durability::Persistent, 3, 3),
            entry(Durability::Persistent, 2, 2),
        ],
    )
    .unwrap();
    let diff = a.diff(&b);
    let keys: Vec<(Durability, StateValue)> =
        diff.added.iter().map(|e| (e.durability, e.key.clone())).collect();
    assert_eq!(
        keys,
        vec![
            (Durability::Persistent, StateValue::U32(2)),
            (Durability::Persistent, StateValue::U32(3)),
            (Durability::Temporary, StateValue::U32(1)),
        ]
    );
}

#[test]
fn nested_changes_of_options_and_mismatched_kinds() {
    let some1 = StateValue::Option(Some(Box::new(StateValue::U64(1))));
    let none = StateValue::Option(None);
    assert_eq!(
        compute_nested_changes(&some1, &none),
        vec![NestedChange::ItemRemoved { index: 0, value: StateValue::U64(1) }]
    );
    assert_eq!(
        compute_nested_changes(&none, &some1),
        vec![NestedChange::ItemAdded { index: 0, value: StateValue::U64(1) }]
    );
    assert!(compute_nested_changes(&StateValue::U64(1), &StateValue::U32(1)).is_empty());
    assert!(compute_nested_changes(&some1, &some1).is_empty());
}

#[test]
fn nested_changes_of_a_value_with_itself_are_empty() {
    let mut fields = StructFields::new();
    fields.insert("a".to_string(), StateValue::U32(1));
    fields.insert("b".to_string(), StateValue::Bool(true));
    let values = vec![
        StateValue::Struct(fields),
        StateValue::Vec(vec![StateValue::U32(1), StateValue::U32(2)]),
        StateValue::Mapping(vec![
            (StateValue::Symbol("x".to_string()), StateValue::U64(1)),
            (StateValue::Symbol("y".to_string()), StateValue::U64(2)),
        ]),
    ];
    for v in &values {
        assert!(compute_nested_changes(v, v).is_empty());
    }
}

#[test]
fn repeated_map_key_reports_a_change_against_itself() {
    let v = StateValue::Mapping(vec![
        (StateValue::Symbol("x".to_string()), StateValue::U64(1)),
        (StateValue::Symbol("x".to_string()), StateValue::U64(2)),
    ]);
    assert!(!compute_nested_changes(&v, &v).is_empty());
}

#[test]
fn vec_shrink_reports_removed_items() {
    let before = StateValue::Vec(vec![StateValue::U32(1), StateValue::U32(2), StateValue::U32(3)]);
    let after = StateValue::Vec(vec![StateValue::U32(1)]);
    assert_eq!(
        compute_nested_changes(&before, &after),
        vec![
            NestedChange::ItemRemoved { index: 1, value: StateValue::U32(2) },
            NestedChange::ItemRemoved { index: 2, value: StateValue::U32(3) },
        ]
    );
}

#[test]
fn struct_fields_stay_sorted_and_insert_replaces() {
    let mut fields = StructFields::new();
    assert!(fields.is_empty());
    assert_eq!(fields.insert("zeta".to_string(), StateValue::U32(1)), None);
    assert_eq!(fields.insert("alpha".to_string(), StateValue::U32(2)), None);
    assert_eq!(fields.insert("zeta".to_string(), StateValue::U32(3)), Some(StateValue::U32(1)));
    assert_eq!(fields.len(), 2);
    assert_eq!(fields.name_at(0), "alpha");
    assert_eq!(fields.name_at(1), "zeta");
    assert_eq!(fields.value_at(1), &StateValue::U32(3));
    assert_eq!(fields.get("missing"), None);
}

#[test]
fn nested_modifications_show_different_values() {
    let before = StateValue::Vec(vec![StateValue::U32(1), StateValue::U32(2)]);
    let after = StateValue::Vec(vec![StateValue::U32(1), StateValue::U32(3)]);
    let changes = compute_nested_changes(&before, &after);
    assert_eq!(changes.len(), 1);
    match &changes[0] {
        NestedChange::ItemModified { index, before, after } => {
            assert_eq!(*index, 1);
            assert_eq!(*before, StateValue::U32(2));
            assert_eq!(*after, StateValue::U32(3));
            assert_ne!(before, after);
        }
        other => panic!("unexpected change {:?}", other),
    }
}

#[test]
fn same_entries_in_any_order_show_no_change() {
    let a = ContractState::new(
        "C".to_string(),
        vec![entry(Durability::Persistent, 1, 10), entry(Durability::Temporary, 2, 20)],
    )
    .unwrap();
    let b = ContractState::new(
        "C".to_string(),
        vec![entry(Durability::Temporary, 2, 20), entry(Durability::Persistent, 1, 10)],
    )
    .unwrap();
    let d = a.diff(&b);
    assert!(!d.has_changes());
    assert_eq!(d.unchanged_count(), 2);
    let c = ContractState::new("C".to_string(), vec![entry(Durability::Persistent, 1, 10)]).unwrap();
    assert!(a.diff(&c).has_changes());
}

#[test]
fn category_counts_match_identity_sets() {
    let a = ContractState::new(
        "C".to_string(),
        vec![entry(Durability::Persistent, 1, 10), entry(Durability::Persistent, 2, 20), entry(Durability::Persistent, 3, 30)],
    )
    .unwrap();
    let b = ContractState::new(
        "C".to_string(),
        vec![entry(Durability::Persistent, 2, 21), entry(Durability::Persistent, 3, 30), entry(Durability::Persistent, 4, 40)],
    )
    .unwrap();
    let d = a.diff(&b);
    assert_eq!(d.added_count(), 1);
    assert_eq!(d.removed_count(), 1);
    assert_eq!(d.modified_count(), 1);
    assert_eq!(d.unchanged_count(), 1);
}
