use migration_sim::entry::{Durability, StateEntry};
use migration_sim::migration::{ExecutionInfo, MigrationEngine, MigrationError, MigrationInput};
use migration_sim::state::ContractState;
use migration_sim::value::StateValue;

fn input(wasm: Vec<u8>, contract_id: &str, migration_fn: &str) -> MigrationInput {
    MigrationInput {
        contract_id: contract_id.to_string(),
        wasm,
        initial_state: vec![],
        key_prefix: "Record".to_string(),
        migration_fn: migration_fn.to_string(),
        migration_args: None,
    }
}

fn state(values: &[u64]) -> ContractState {
    let entries = values
        .iter()
        .enumerate()
        .map(|(i, v)| StateEntry {
            durability: Durability::Persistent,
            key: StateValue::U32(i as u32),
            value: StateValue::U64(*v),
        })
        .collect();
    ContractState::new("C1".to_string(), entries).unwrap()
}

fn info() -> ExecutionInfo {
    ExecutionInfo { pre_capture_us: 1, migration_us: 2, post_capture_us: 3 }
}

#[test]
fn test_invalid_input_empty_wasm() {
    let input = MigrationInput {
        contract_id: "test".to_string(),
        wasm: vec![],
        initial_state: vec![],
        key_prefix: "Record".to_string(),
        migration_fn: "migrate".to_string(),
        migration_args: None,
    };

    let result = MigrationEngine::validate_input(&input);
    assert!(matches!(result, Err(MigrationError::InvalidInput(_))));
}

#[test]
fn test_invalid_input_empty_fn() {
    let input = MigrationInput {
        contract_id: "test".to_string(),
        wasm: vec![0, 1, 2],
        initial_state: vec![],
        key_prefix: "Record".to_string(),
        migration_fn: "".to_string(),
        migration_args: None,
    };

    let result = MigrationEngine::validate_input(&input);
    assert!(matches!(result, Err(MigrationError::InvalidInput(_))));
}

#[test]
fn validation_messages_come_in_order() {
    match MigrationEngine::validate_input(&input(vec![], "", "")) {
        Err(MigrationError::InvalidInput(m)) => assert_eq!(m, "WASM bytes are empty"),
        other => panic!("unexpected {:?}", other),
    }
    match MigrationEngine::validate_input(&input(vec![1], "", "")) {
        Err(MigrationError::InvalidInput(m)) => assert_eq!(m, "Contract ID is empty"),
        other => panic!("unexpected {:?}", other),
    }
    match MigrationEngine::validate_input(&input(vec![1], "c", "")) {
        Err(MigrationError::InvalidInput(m)) => assert_eq!(m, "Migration function name is empty"),
        other => panic!("unexpected {:?}", other),
    }
    assert!(MigrationEngine::validate_input(&input(vec![1], "c", "migrate")).is_ok());
}

#[test]
fn the_first_key_leads_the_arguments() {
    let mut i = input(vec![1], "c", "migrate");
    i.initial_state = vec![
        StateEntry { durability: Durability::Persistent, key: StateValue::Symbol("k1".to_string()), value: StateValue::U32(1) },
        StateEntry { durability: Durability::Persistent, key: StateValue::Symbol("k2".to_string()), value: StateValue::U32(2) },
    ];
    i.migration_args = Some(vec![StateValue::Bool(true), StateValue::U64(7)]);
    assert_eq!(
        MigrationEngine::invocation_args(&i),
        vec![StateValue::Symbol("k1".to_string()), StateValue::Bool(true), StateValue::U64(7)]
    );
    i.initial_state = vec![];
    i.migration_args = None;
    assert!(MigrationEngine::invocation_args(&i).is_empty());
}

#[test]
fn only_the_contracts_persistent_entries_are_kept() {
    let id = vec![7u8; 32];
    assert!(MigrationEngine::keeps_ledger_entry(false, false, &Some(id.clone()), &id));
    assert!(!MigrationEngine::keeps_ledger_entry(true, false, &Some(id.clone()), &id));
    assert!(!MigrationEngine::keeps_ledger_entry(false, true, &Some(id.clone()), &id));
    assert!(!MigrationEngine::keeps_ledger_entry(false, false, &None, &id));
    assert!(!MigrationEngine::keeps_ledger_entry(false, false, &Some(vec![8u8; 32]), &id));
}

#[test]
fn successful_run_reports_both_states() {
    let r = MigrationEngine::finish(state(&[1]), Ok(()), Ok(state(&[2])), info()).unwrap();
    assert!(r.success);
    assert_eq!(r.pre_state, state(&[1]));
    assert_eq!(r.post_state, state(&[2]));
    assert!(r.error.is_none());
    assert_eq!(r.execution_info, info());
}

#[test]
fn failed_capture_after_success_fails_the_run() {
    let r = MigrationEngine::finish(
        state(&[1]),
        Ok(()),
        Err(MigrationError::StateCaptureFailure("Post-state capture failed: x".to_string())),
        info(),
    );
    assert!(matches!(r, Err(MigrationError::StateCaptureFailure(m)) if m == "Post-state capture failed: x"));
}

#[test]
fn failed_call_falls_back_to_the_state_before() {
    let r = MigrationEngine::finish(
        state(&[1, 2]),
        Err("Contract invocation failed: boom".to_string()),
        Err(MigrationError::StateCaptureFailure("x".to_string())),
        info(),
    )
    .unwrap();
    assert!(!r.success);
    assert_eq!(r.post_state, state(&[1, 2]));
    assert_eq!(r.error, Some("Contract invocation failed: boom".to_string()));

    let r = MigrationEngine::finish(state(&[1]), Err("e".to_string()), Ok(state(&[3])), info()).unwrap();
    assert!(!r.success);
    assert_eq!(r.post_state, state(&[3]));
}

