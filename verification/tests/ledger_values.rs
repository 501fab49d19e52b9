use migration_sim::entry::Durability;
use migration_sim::ledger_values::{scval_to_state_value, CaptureFailure, LedgerItem};
use migration_sim::migration::{MigrationEngine, MigrationError};
use migration_sim::state::StateError;
use migration_sim::value::{StateValue, StructFields};
use stellar_xdr::curr::{ContractId, Limits, ScAddress, ScBytes, ScMap, ScMapEntry, ScSymbol, ScVal, ScVec, WriteXdr};

fn enc(v: &ScVal) -> Vec<u8> {
    v.to_xdr(Limits::none()).unwrap()
}

fn sym(s: &str) -> ScVal {
    ScVal::Symbol(ScSymbol(s.try_into().unwrap()))
}

#[test]
fn scalars_convert() {
    assert_eq!(scval_to_state_value(&enc(&ScVal::Bool(true))).unwrap(), StateValue::Bool(true));
    assert_eq!(scval_to_state_value(&enc(&ScVal::U32(7))).unwrap(), StateValue::U32(7));
    assert_eq!(scval_to_state_value(&enc(&ScVal::U64(9))).unwrap(), StateValue::U64(9));
    assert_eq!(scval_to_state_value(&enc(&ScVal::I32(5))).unwrap(), StateValue::U64(5));
    assert_eq!(scval_to_state_value(&enc(&ScVal::I32(-1))).unwrap(), StateValue::U64(u64::MAX));
    assert_eq!(scval_to_state_value(&enc(&sym("owner"))).unwrap(), StateValue::Symbol("owner".to_string()));
    assert_eq!(scval_to_state_value(&enc(&ScVal::Void)).unwrap(), StateValue::Option(None));
    let bytes = ScVal::Bytes(ScBytes(vec![0xde, 0xad, 0x01].try_into().unwrap()));
    assert_eq!(scval_to_state_value(&enc(&bytes)).unwrap(), StateValue::Bytes("dead01".to_string()));
}

#[test]
fn contract_address_is_written_as_strkey() {
    let addr = ScVal::Address(ScAddress::Contract(ContractId(stellar_xdr::curr::Hash([0u8; 32]))));
    assert_eq!(
        scval_to_state_value(&enc(&addr)).unwrap(),
        StateValue::Address("CAAAAAAAAAAAAAAAAAAAAAAAAAAAAAAAAAAAAAAAAAAAAAAAAAAABSC4".to_string())
    );
}

#[test]
fn maps_become_structs_and_vectors_stay_vectors() {
    let map = ScVal::Map(Some(ScMap(
        vec![
            ScMapEntry { key: sym("value"), val: ScVal::U64(100) },
            ScMapEntry { key: sym("owner"), val: sym("me") },
            ScMapEntry { key: ScVal::U32(3), val: ScVal::Bool(false) },
        ]
        .try_into()
        .unwrap(),
    )));
    let mut expected = StructFields::new();
    expected.insert("owner".to_string(), StateValue::Symbol("me".to_string()));
    expected.insert("value".to_string(), StateValue::U64(100));
    expected.insert("U32(3)".to_string(), StateValue::Bool(false));
    assert_eq!(scval_to_state_value(&enc(&map)).unwrap(), StateValue::Struct(expected));

    let v = ScVal::Vec(Some(ScVec(vec![ScVal::U32(1), ScVal::Void].try_into().unwrap())));
    assert_eq!(
        scval_to_state_value(&enc(&v)).unwrap(),
        StateValue::Vec(vec![StateValue::U32(1), StateValue::Option(None)])
    );
}

#[test]
fn unsupported_values_are_reported() {
    match scval_to_state_value(&enc(&ScVal::I64(-4))) {
        Err(MigrationError::StateConversionFailure(m)) => assert_eq!(m, "Unsupported ScVal variant: I64(-4)"),
        other => panic!("unexpected {:?}", other),
    }
    assert!(matches!(scval_to_state_value(&enc(&ScVal::Vec(None))), Err(MigrationError::StateConversionFailure(_))));
    let nested = ScVal::Vec(Some(ScVec(vec![ScVal::U32(1), ScVal::I64(2)].try_into().unwrap())));
    match scval_to_state_value(&enc(&nested)) {
        Err(MigrationError::StateConversionFailure(m)) => assert_eq!(m, "Unsupported ScVal variant: I64(2)"),
        other => panic!("unexpected {:?}", other),
    }
}

fn item(temporary: bool, instance_key: bool, owner: Option<Vec<u8>>, key: ScVal, value: ScVal) -> LedgerItem {
    LedgerItem { temporary, instance_key, owner, key: enc(&key), value: enc(&value) }
}

#[test]
fn capture_keeps_the_contracts_persistent_entries_in_order() {
    let me = vec![1u8; 32];
    let other = vec![2u8; 32];
    let items = vec![
        item(false, false, Some(me.clone()), ScVal::U32(9), ScVal::U64(90)),
        item(true, false, Some(me.clone()), ScVal::U32(1), ScVal::U64(10)),
        item(false, true, Some(me.clone()), ScVal::LedgerKeyContractInstance, ScVal::Void),
        item(false, false, Some(other), ScVal::U32(2), ScVal::U64(20)),
        item(false, false, None, ScVal::U32(3), ScVal::U64(30)),
        item(false, false, Some(me.clone()), ScVal::U32(4), ScVal::I64(-1)),
        item(false, false, Some(me.clone()), ScVal::U32(0), ScVal::U64(0)),
    ];
    match MigrationEngine::capture_state("C".to_string(), &me, &items) {
        Err(CaptureFailure::ValueConversion(MigrationError::StateConversionFailure(m))) => {
            assert_eq!(m, "Unsupported ScVal variant: I64(-1)")
        }
        other => panic!("unexpected {:?}", other),
    }
    let items: Vec<LedgerItem> = items.into_iter().filter(|i| i.value != enc(&ScVal::I64(-1))).collect();
    let st = MigrationEngine::capture_state("C".to_string(), &me, &items).unwrap();
    assert_eq!(st.contract_id, "C");
    let got: Vec<(Durability, StateValue, StateValue)> =
        st.entries.iter().map(|e| (e.durability, e.key.clone(), e.value.clone())).collect();
    assert_eq!(
        got,
        vec![
            (Durability::Persistent, StateValue::U32(0), StateValue::U64(0)),
            (Durability::Persistent, StateValue::U32(9), StateValue::U64(90)),
        ]
    );
}

#[test]
fn capture_rejects_repeated_keys_and_bad_keys() {
    let me = vec![1u8; 32];
    let items = vec![
        item(false, false, Some(me.clone()), ScVal::U32(1), ScVal::U64(1)),
        item(false, false, Some(me.clone()), ScVal::U32(1), ScVal::U64(2)),
    ];
    assert!(matches!(
        MigrationEngine::capture_state("C".to_string(), &me, &items),
        Err(CaptureFailure::InvalidState(StateError::DuplicateKey(Durability::Persistent, StateValue::U32(1))))
    ));
    let items = vec![item(false, false, Some(me.clone()), ScVal::I64(5), ScVal::U64(1))];
    assert!(matches!(
        MigrationEngine::capture_state("C".to_string(), &me, &items),
        Err(CaptureFailure::KeyConversion(MigrationError::StateConversionFailure(_)))
    ));
}

#[test]
fn muxed_address_has_no_state_form() {
    let muxed = ScVal::Address(ScAddress::MuxedAccount(stellar_xdr::curr::MuxedEd25519Account {
        id: 7,
        ed25519: stellar_xdr::curr::Uint256([1u8; 32]),
    }));
    let r = scval_to_state_value(&enc(&muxed));
    assert!(matches!(r, Err(MigrationError::StateConversionFailure(m)) if m == "Failed to convert Val to Address: ConversionError"));
}

#[test]
fn claimable_balance_address_is_refused_as_the_host_refuses_it() {
    let cb = ScVal::Address(ScAddress::ClaimableBalance(stellar_xdr::curr::ClaimableBalanceId::ClaimableBalanceIdTypeV0(
        stellar_xdr::curr::Hash([2u8; 32]),
    )));
    let r = scval_to_state_value(&enc(&cb));
    assert!(matches!(r, Err(MigrationError::StateConversionFailure(m))
        if m == "Failed to convert ScVal Address to Val: Error(Object, UnexpectedType)"));
}
