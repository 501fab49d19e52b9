use migration_sim::analysis::TypeRef;
use migration_sim::analyzer::{Analyzer, AnalyzerError, WasmPayload};
use migration_sim::contract_spec::{enum_from, map_type_def, type_from_parts, union_from};
use stellar_xdr::curr::{
    Limits, ScEnvMetaEntry, ScEnvMetaEntryInterfaceVersion, ScMetaEntry, ScMetaV0, ScSpecEntry,
    ScSpecFunctionInputV0, ScSpecFunctionV0, ScSpecTypeBytesN, ScSpecTypeDef, ScSpecTypeMap,
    ScSpecTypeOption, ScSpecTypeResult, ScSpecTypeTuple, ScSpecTypeUdt, ScSpecTypeVec,
    ScSpecUdtEnumCaseV0, ScSpecUdtEnumV0, ScSpecUdtStructFieldV0, ScSpecUdtStructV0,
    ScSpecUdtUnionCaseTupleV0, ScSpecUdtUnionCaseV0, ScSpecUdtUnionCaseVoidV0, ScSpecUdtUnionV0,
    ScSymbol, WriteXdr,
};

fn leb(out: &mut Vec<u8>, mut n: usize) {
    loop {
        let byte = (n & 0x7f) as u8;
        n >>= 7;
        if n == 0 {
            out.push(byte);
            return;
        }
        out.push(byte | 0x80);
    }
}

fn custom_section(name: &str, data: &[u8]) -> Vec<u8> {
    let mut payload = Vec::new();
    leb(&mut payload, name.len());
    payload.extend_from_slice(name.as_bytes());
    payload.extend_from_slice(data);
    let mut out = vec![0u8];
    leb(&mut out, payload.len());
    out.extend(payload);
    out
}

fn module(sections: &[Vec<u8>]) -> Vec<u8> {
    let mut out = vec![0x00, 0x61, 0x73, 0x6d, 0x01, 0x00, 0x00, 0x00];
    for s in sections {
        out.extend_from_slice(s);
    }
    out
}

fn xdr<T: WriteXdr>(t: &T) -> Vec<u8> {
    t.to_xdr(Limits::none()).unwrap()
}

fn udt(name: &str) -> ScSpecTypeDef {
    ScSpecTypeDef::Udt(ScSpecTypeUdt { name: name.try_into().unwrap() })
}

fn option(t: ScSpecTypeDef) -> ScSpecTypeDef {
    ScSpecTypeDef::Option(Box::new(ScSpecTypeOption { value_type: Box::new(t) }))
}

fn spec_section() -> Vec<u8> {
    let get_record = ScSpecEntry::FunctionV0(ScSpecFunctionV0 {
        doc: Default::default(),
        name: ScSymbol("get_record".try_into().unwrap()),
        inputs: vec![ScSpecFunctionInputV0 {
            doc: Default::default(),
            name: "owner".try_into().unwrap(),
            type_: ScSpecTypeDef::Address,
        }]
        .try_into()
        .unwrap(),
        outputs: vec![option(udt("Record"))].try_into().unwrap(),
    });
    let record = ScSpecEntry::UdtStructV0(ScSpecUdtStructV0 {
        doc: Default::default(),
        lib: Default::default(),
        name: "Record".try_into().unwrap(),
        fields: vec![
            ScSpecUdtStructFieldV0 {
                doc: Default::default(),
                name: "owner".try_into().unwrap(),
                type_: ScSpecTypeDef::Address,
            },
            ScSpecUdtStructFieldV0 {
                doc: Default::default(),
                name: "value".try_into().unwrap(),
                type_: ScSpecTypeDef::U64,
            },
        ]
        .try_into()
        .unwrap(),
    });
    let key = ScSpecEntry::UdtUnionV0(ScSpecUdtUnionV0 {
        doc: Default::default(),
        lib: Default::default(),
        name: "DataKey".try_into().unwrap(),
        cases: vec![
            ScSpecUdtUnionCaseV0::VoidV0(ScSpecUdtUnionCaseVoidV0 {
                doc: Default::default(),
                name: "Admin".try_into().unwrap(),
            }),
            ScSpecUdtUnionCaseV0::TupleV0(ScSpecUdtUnionCaseTupleV0 {
                doc: Default::default(),
                name: "Record".try_into().unwrap(),
                type_: vec![ScSpecTypeDef::Address, ScSpecTypeDef::U32].try_into().unwrap(),
            }),
        ]
        .try_into()
        .unwrap(),
    });
    let level = ScSpecEntry::UdtEnumV0(ScSpecUdtEnumV0 {
        doc: Default::default(),
        lib: Default::default(),
        name: "Level".try_into().unwrap(),
        cases: vec![
            ScSpecUdtEnumCaseV0 { doc: Default::default(), name: "Low".try_into().unwrap(), value: 0 },
            ScSpecUdtEnumCaseV0 { doc: Default::default(), name: "High".try_into().unwrap(), value: 10 },
        ]
        .try_into()
        .unwrap(),
    });
    let mut data = Vec::new();
    for e in [get_record, record, key, level] {
        data.extend(xdr(&e));
    }
    data
}

fn meta_section(pairs: &[(&str, &str)]) -> Vec<u8> {
    let mut data = Vec::new();
    for (k, v) in pairs {
        let e = ScMetaEntry::ScMetaV0(ScMetaV0 { key: (*k).try_into().unwrap(), val: (*v).try_into().unwrap() });
        data.extend(xdr(&e));
    }
    data
}

fn env_section(protocols: &[u32]) -> Vec<u8> {
    let mut data = Vec::new();
    for p in protocols {
        let e = ScEnvMetaEntry::ScEnvMetaKindInterfaceVersion(ScEnvMetaEntryInterfaceVersion {
            protocol: *p,
            pre_release: 0,
        });
        data.extend(xdr(&e));
    }
    data
}

#[test]
fn test_invalid_wasm() {
    let res = Analyzer::analyze(&[0, 1, 2, 3]);
    assert!(matches!(res, Err(AnalyzerError::InvalidWasm(_))));
}

#[test]
fn test_missing_spec() {
    let wasm = [0x00, 0x61, 0x73, 0x6d, 0x01, 0x00, 0x00, 0x00];
    let res = Analyzer::analyze(&wasm);
    assert!(matches!(res, Err(AnalyzerError::MissingContractSpec)));
}

#[test]
fn test_without_metadata() {
    let wasm = vec![
        0x00, 0x61, 0x73, 0x6d, 0x01, 0x00, 0x00, 0x00, 0x00, 0x0f, 0x0e, b'c', b'o', b'n', b't',
        b'r', b'a', b'c', b't', b's', b'p', b'e', b'c', b'v', b'0',
    ];
    let res = Analyzer::analyze(&wasm).unwrap();
    assert!(!res.has_metadata);
    assert!(!res.has_env_metadata);
    assert!(res.metadata.is_none());
}

#[test]
fn full_interface_is_read() {
    let wasm = module(&[
        custom_section("contractenvmetav0", &env_section(&[22, 23])),
        custom_section("contractmetav0", &meta_section(&[("rsver", "1.80"), ("sdkver", "23.0"), ("rsver", "1.81")])),
        custom_section("contractspecv0", &spec_section()),
    ]);
    let a = Analyzer::analyze(&wasm).unwrap();
    assert!(a.has_metadata);
    assert!(a.has_env_metadata);
    assert_eq!(a.env_metadata.map(|e| e.interface_version), Some(23));
    let meta = a.metadata.as_ref().unwrap();
    assert_eq!(meta.len(), 2);
    assert_eq!(meta.get("rsver"), Some("1.81".to_string()));
    assert_eq!(meta.get("sdkver"), Some("23.0".to_string()));
    assert_eq!(meta.get("missing"), None);

    assert_eq!(a.functions.len(), 1);
    let f = &a.functions[0];
    assert_eq!(f.name, "get_record");
    assert_eq!(f.inputs.len(), 1);
    assert_eq!(f.inputs[0].name, "owner");
    assert_eq!(f.inputs[0].type_ref, TypeRef::Simple("Address".to_string()));
    assert_eq!(f.outputs, vec![TypeRef::Complex("Option<Record>".to_string())]);

    assert_eq!(a.types.len(), 3);
    let record = &a.types[0];
    assert_eq!(record.name, "Record");
    assert_eq!(record.description, "struct");
    assert_eq!(record.fields[0].name, "owner");
    assert_eq!(record.fields[1].name, "value");
    assert_eq!(record.fields[1].type_ref, TypeRef::Simple("u64".to_string()));

    let key = &a.types[1];
    assert_eq!(key.description, "union");
    assert_eq!(key.fields[0].name, "Admin");
    assert_eq!(key.fields[0].type_ref, TypeRef::Simple("void".to_string()));
    assert_eq!(key.fields[1].name, "Record");
    assert_eq!(key.fields[1].type_ref, TypeRef::Complex("Tuple<Address, u32>".to_string()));

    let level = &a.types[2];
    assert_eq!(level.description, "enum");
    assert_eq!(level.fields[0].type_ref, TypeRef::Simple("0".to_string()));
    assert_eq!(level.fields[1].name, "High");
    assert_eq!(level.fields[1].type_ref, TypeRef::Simple("10".to_string()));
}

#[test]
fn undecodable_spec_entry_is_reported() {
    let wasm = module(&[custom_section("contractspecv0", &[0, 0, 0, 99])]);
    assert!(matches!(Analyzer::analyze(&wasm), Err(AnalyzerError::XdrDecodeError(_))));
}

#[test]
fn undecodable_metadata_stops_reading_quietly() {
    let mut meta = meta_section(&[("k", "v")]);
    meta.extend_from_slice(&[0, 0, 0, 7]);
    let wasm = module(&[
        custom_section("contractmetav0", &meta),
        custom_section("contractspecv0", &[]),
    ]);
    let a = Analyzer::analyze(&wasm).unwrap();
    assert!(a.has_metadata);
    assert_eq!(a.metadata.as_ref().unwrap().len(), 1);
}

#[test]
fn empty_metadata_section_counts_but_leaves_no_map() {
    let wasm = module(&[custom_section("contractmetav0", &[]), custom_section("contractspecv0", &[])]);
    let a = Analyzer::analyze(&wasm).unwrap();
    assert!(a.has_metadata);
    assert!(a.metadata.is_none());
}

#[test]
fn first_error_wins() {
    let payloads = vec![
        WasmPayload::Custom { name: "contractspecv0".to_string(), data: vec![0, 0, 0, 99] },
        WasmPayload::Invalid("broken".to_string()),
    ];
    assert!(matches!(Analyzer::analyze_payloads(&payloads), Err(AnalyzerError::XdrDecodeError(_))));
    let payloads = vec![
        WasmPayload::Invalid("broken".to_string()),
        WasmPayload::Custom { name: "contractspecv0".to_string(), data: vec![] },
    ];
    match Analyzer::analyze_payloads(&payloads) {
        Err(AnalyzerError::InvalidWasm(m)) => assert_eq!(m, "broken"),
        other => panic!("unexpected {:?}", other),
    }
}

#[test]
fn payloads_without_spec_are_missing_it() {
    let payloads = vec![WasmPayload::Other, WasmPayload::Custom { name: "name".to_string(), data: vec![1] }];
    assert!(matches!(Analyzer::analyze_payloads(&payloads), Err(AnalyzerError::MissingContractSpec)));
}

#[test]
fn type_definitions_are_written_out() {
    let t = ScSpecTypeDef::Result(Box::new(ScSpecTypeResult {
        ok_type: Box::new(ScSpecTypeDef::Vec(Box::new(ScSpecTypeVec { element_type: Box::new(ScSpecTypeDef::I128) }))),
        error_type: Box::new(ScSpecTypeDef::Map(Box::new(ScSpecTypeMap {
            key_type: Box::new(ScSpecTypeDef::Symbol),
            value_type: Box::new(ScSpecTypeDef::BytesN(ScSpecTypeBytesN { n: 32 })),
        }))),
    }));
    assert_eq!(
        map_type_def(&xdr(&t)),
        TypeRef::Complex("Result<Vec<i128>, Map<symbol, BytesN<32>>>".to_string())
    );
    let tuple = ScSpecTypeDef::Tuple(Box::new(ScSpecTypeTuple {
        value_types: vec![ScSpecTypeDef::Bool, ScSpecTypeDef::Timepoint, ScSpecTypeDef::Void].try_into().unwrap(),
    }));
    assert_eq!(map_type_def(&xdr(&tuple)), TypeRef::Complex("Tuple<bool, Timepoint, void>".to_string()));
    assert_eq!(map_type_def(&xdr(&ScSpecTypeDef::MuxedAddress)), TypeRef::Unknown);
    assert_eq!(map_type_def(&xdr(&ScSpecTypeDef::Error)), TypeRef::Unknown);
    assert_eq!(map_type_def(&[1, 2, 3]), TypeRef::Unknown);
}

#[test]
fn type_text_from_decoded_parts() {
    let parts = vec!["u32".to_string(), "string".to_string()];
    assert_eq!(
        type_from_parts(&"Map".to_string(), 0, &String::new(), &parts),
        TypeRef::Complex("Map<u32, string>".to_string())
    );
    assert_eq!(
        type_from_parts(&"Option".to_string(), 0, &String::new(), &vec![]),
        TypeRef::Complex("Option<Unknown>".to_string())
    );
    assert_eq!(
        type_from_parts(&"Tuple".to_string(), 0, &String::new(), &vec![]),
        TypeRef::Complex("Tuple<>".to_string())
    );
    assert_eq!(
        type_from_parts(&"BytesN".to_string(), 1234, &String::new(), &vec![]),
        TypeRef::Complex("BytesN<1234>".to_string())
    );
    assert_eq!(
        type_from_parts(&"Udt".to_string(), 0, &"Record".to_string(), &vec![]),
        TypeRef::Complex("Record".to_string())
    );
    assert_eq!(
        type_from_parts(&"Duration".to_string(), 0, &String::new(), &vec![]),
        TypeRef::Simple("Duration".to_string())
    );
}

#[test]
fn type_ref_text() {
    assert_eq!(TypeRef::Simple("u64".to_string()).to_string_rep(), "u64");
    assert_eq!(TypeRef::Complex("Vec<u64>".to_string()).to_string_rep(), "Vec<u64>");
    assert_eq!(TypeRef::Unknown.to_string_rep(), "Unknown");
}

#[test]
fn decoded_entries_become_types() {
    let e = enum_from(("Level".to_string(), vec![("Low".to_string(), 0), ("High".to_string(), 42)]));
    assert_eq!(e.name, "Level");
    assert_eq!(e.description, "enum");
    assert_eq!(e.fields[1].name, "High");
    assert_eq!(e.fields[1].type_ref, TypeRef::Simple("42".to_string()));
    let u = union_from(("Key".to_string(), vec![("VoidV0".to_string(), "Admin".to_string(), vec![])]));
    assert_eq!(u.description, "union");
    assert_eq!(u.fields[0].type_ref, TypeRef::Simple("void".to_string()));
    let t = union_from(("Key".to_string(), vec![("TupleV0".to_string(), "Pair".to_string(), vec![])]));
    assert_eq!(t.fields[0].type_ref, TypeRef::Complex("Tuple<>".to_string()));
}
