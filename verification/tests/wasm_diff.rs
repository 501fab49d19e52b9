use migration_sim::analysis::{ContractAnalysis, FieldAnalysis, FunctionAnalysis, TypeAnalysis, TypeRef};
use migration_sim::wasm_diff::WasmDiff;

fn function(name: &str, output: &str) -> FunctionAnalysis {
    FunctionAnalysis { name: name.to_string(), inputs: vec![], outputs: vec![TypeRef::Complex(output.to_string())] }
}

fn ty(name: &str, fields: &[&str]) -> TypeAnalysis {
    TypeAnalysis {
        name: name.to_string(),
        description: "struct".to_string(),
        fields: fields
            .iter()
            .map(|f| FieldAnalysis { name: f.to_string(), type_ref: TypeRef::Simple("u64".to_string()) })
            .collect(),
    }
}

fn contract(functions: Vec<FunctionAnalysis>, types: Vec<TypeAnalysis>) -> ContractAnalysis {
    ContractAnalysis { has_metadata: false, has_env_metadata: false, env_metadata: None, metadata: None, functions, types }
}

fn names_f(v: &[FunctionAnalysis]) -> Vec<String> {
    v.iter().map(|f| f.name.clone()).collect()
}

fn names_t(v: &[TypeAnalysis]) -> Vec<String> {
    v.iter().map(|t| t.name.clone()).collect()
}

#[test]
fn v1_to_v2_interface_changes() {
    let old = contract(
        vec![function("create_record", "void"), function("get_record", "Option<Record>")],
        vec![ty("Record", &["owner", "value"])],
    );
    let new = contract(
        vec![
            function("create_record", "void"),
            function("get_record", "Option<RecordV2>"),
            function("migrate_record", "void"),
        ],
        vec![ty("RecordV2", &["owner", "value", "version"])],
    );
    let d = WasmDiff::compare(&old, &new).unwrap();
    assert_eq!(names_f(&d.added_functions), vec!["migrate_record"]);
    assert!(d.removed_functions.is_empty());
    assert_eq!(d.changed_functions, vec![function("get_record", "Option<RecordV2>")]);
    assert_eq!(names_t(&d.added_types), vec!["RecordV2"]);
    assert_eq!(names_t(&d.removed_types), vec!["Record"]);
    assert!(d.changed_types.is_empty());
}

#[test]
fn changed_types_report_the_new_version() {
    let old = contract(vec![], vec![ty("Record", &["a"])]);
    let new = contract(vec![], vec![ty("Record", &["a", "b"])]);
    let d = WasmDiff::compare(&old, &new).unwrap();
    assert_eq!(d.changed_types, vec![ty("Record", &["a", "b"])]);
}

#[test]
fn the_last_item_of_a_name_counts() {
    let old = contract(vec![function("f", "u32"), function("f", "u64")], vec![]);
    let new = contract(vec![function("f", "u64")], vec![]);
    let d = WasmDiff::compare(&old, &new).unwrap();
    assert!(d.changed_functions.is_empty());
    assert!(d.added_functions.is_empty());
    assert!(d.removed_functions.is_empty());
}

#[test]
fn comparing_with_itself_reports_nothing() {
    let c = contract(
        vec![function("a", "u32"), function("b", "u32"), function("a", "u64")],
        vec![ty("T", &["x"]), ty("U", &[])],
    );
    let d = WasmDiff::compare(&c, &c).unwrap();
    assert!(d.added_functions.is_empty() && d.removed_functions.is_empty() && d.changed_functions.is_empty());
    assert!(d.added_types.is_empty() && d.removed_types.is_empty() && d.changed_types.is_empty());
}

#[test]
fn added_one_way_is_removed_the_other() {
    let a = contract(vec![function("x", "u32"), function("y", "u32")], vec![ty("A", &[])]);
    let b = contract(vec![function("y", "u32"), function("z", "u32"), function("w", "u32")], vec![ty("B", &[])]);
    let ab = WasmDiff::compare(&a, &b).unwrap();
    let ba = WasmDiff::compare(&b, &a).unwrap();
    assert_eq!(ab.added_functions, ba.removed_functions);
    assert_eq!(ab.removed_functions, ba.added_functions);
    assert_eq!(ab.added_types, ba.removed_types);
    assert_eq!(names_f(&ab.added_functions), vec!["z", "w"]);
}

#[test]
fn changed_names_agree_in_both_directions() {
    let a = contract(
        vec![function("get", "u32"), function("put", "void"), function("old", "void")],
        vec![ty("Record", &["a"]), ty("Meta", &["x"])],
    );
    let b = contract(
        vec![function("put", "u64"), function("get", "u64"), function("new", "void")],
        vec![ty("Meta", &["x"]), ty("Record", &["a", "b"])],
    );
    let ab = WasmDiff::compare(&a, &b).unwrap();
    let ba = WasmDiff::compare(&b, &a).unwrap();
    let mut f1 = names_f(&ab.changed_functions);
    let mut f2 = names_f(&ba.changed_functions);
    f1.sort();
    f2.sort();
    assert_eq!(f1, vec!["get", "put"]);
    assert_eq!(f1, f2);
    assert_eq!(names_t(&ab.changed_types), names_t(&ba.changed_types));
    assert_eq!(names_f(&ab.added_functions), names_f(&ba.removed_functions));
}
