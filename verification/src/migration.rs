//! The decisions of a migration simulation: what a run needs before it
//! starts, what the migration function is called with, which ledger entries
//! make up a captured state, and how a run's outcome is reported. Running the
//! contract itself is the host environment's work.
use vstd::prelude::*;
use vstd::string::StringExecFns;
use crate::entry::StateEntry;
use crate::state::{ContractState, StateError, copy_state};
use crate::value::{StateValue, ValueModel, copy_value, model_seq, lemma_model_seq};

verus! {

/// Why a migration simulation could not be run.
#[derive(Debug)]
pub enum MigrationError {
    InvalidInput(String),
    InvalidWasm(String),
    ContractRegistrationFailure(String),
    ContractInvocationFailure(String),
    StateCaptureFailure(String),
    StateConversionFailure(String),
    MigrationFailure(String),
    StateError(StateError),
    IoError(std::io::Error),
}

/// What a migration simulation runs.
#[derive(Debug, Clone)]
pub struct MigrationInput {
    /// Identifier of the contract.
    pub contract_id: String,
    /// Compiled contract holding the migration logic.
    pub wasm: Vec<u8>,
    /// Entries stored before the migration runs.
    pub initial_state: Vec<StateEntry>,
    /// Variant name that prefixes storage keys.
    pub key_prefix: String,
    /// Name of the migration function.
    pub migration_fn: String,
    /// Arguments passed after the key.
    pub migration_args: Option<Vec<StateValue>>,
}

/// Durations of the phases of a run, in microseconds.
#[derive(Debug, Clone, Copy, PartialEq, Eq, Structural)]
pub struct ExecutionInfo {
    pub pre_capture_us: u64,
    pub migration_us: u64,
    pub post_capture_us: u64,
}

/// The outcome of a migration simulation.
#[derive(Debug, Clone)]
pub struct MigrationResult {
    /// Whether the migration function returned normally.
    pub success: bool,
    /// State captured before the migration ran.
    pub pre_state: ContractState,
    /// State captured after it ran.
    pub post_state: ContractState,
    /// What went wrong, where something did.
    pub error: Option<String>,
    pub execution_info: ExecutionInfo,
}

/// Runs migration simulations.
pub struct MigrationEngine;

/// Models of the arguments the migration function receives: the key of
/// the first initial entry, where there is one, then the extra arguments.
pub open spec fn invocation_args_model(initial: Seq<StateEntry>, extra: Option<Seq<StateValue>>) -> Seq<ValueModel> {
    let first = if initial.len() > 0 { seq![initial[0].key.model()] } else { Seq::empty() };
    let rest = match extra {
        Some(a) => model_seq(a),
        None => Seq::empty(),
    };
    first + rest
}

/// The extra arguments of an input, as a sequence.
pub open spec fn extra_args(input: &MigrationInput) -> Option<Seq<StateValue>> {
    match &input.migration_args {
        Some(a) => Some(a@),
        None => None,
    }
}

impl MigrationEngine {
    /// A run needs WASM bytes, a contract identifier and a migration
    /// function name; the first that is missing is reported.
    pub fn validate_input(input: &MigrationInput) -> (r: Result<(), MigrationError>)
        ensures
            input.wasm@.len() == 0 ==> (r matches Err(MigrationError::InvalidInput(m)) && m@ == "WASM bytes are empty"@),
            input.wasm@.len() > 0 && input.contract_id@.len() == 0
                ==> (r matches Err(MigrationError::InvalidInput(m)) && m@ == "Contract ID is empty"@),
            input.wasm@.len() > 0 && input.contract_id@.len() > 0 && input.migration_fn@.len() == 0
                ==> (r matches Err(MigrationError::InvalidInput(m)) && m@ == "Migration function name is empty"@),
            r is Ok <==> (input.wasm@.len() > 0 && input.contract_id@.len() > 0 && input.migration_fn@.len() > 0),
    {
        if input.wasm.len() == 0 {
            return Err(MigrationError::InvalidInput(String::from_str("WASM bytes are empty")));
        }
        if input.contract_id.as_str().unicode_len() == 0 {
            return Err(MigrationError::InvalidInput(String::from_str("Contract ID is empty")));
        }
        if input.migration_fn.as_str().unicode_len() == 0 {
            return Err(MigrationError::InvalidInput(String::from_str("Migration function name is empty")));
        }
        Ok(())
    }

    /// The arguments of the migration call: the first initial entry's key,
    /// where there is one, followed by the extra arguments.
    pub fn invocation_args(input: &MigrationInput) -> (r: Vec<StateValue>)
        ensures
            model_seq(r@) == invocation_args_model(input.initial_state@, extra_args(input)),
    {
        let mut args: Vec<StateValue> = Vec::new();
        let ghost first: Seq<ValueModel> = if input.initial_state@.len() > 0 {
            seq![input.initial_state@[0].key.model()]
        } else {
            Seq::empty()
        };
        if input.initial_state.len() > 0 {
            args.push(copy_value(&input.initial_state[0].key));
            proof {
                lemma_model_seq(args@);
                assert(model_seq(args@) =~= first);
            }
        } else {
            proof {
                assert(model_seq(args@) =~= first);
            }
        }
        match &input.migration_args {
            Some(extra) => {
                let mut i: usize = 0;
                proof {
                    assert(model_seq(extra@.subrange(0, 0)) =~= Seq::<ValueModel>::empty());
                    assert(first + Seq::<ValueModel>::empty() =~= first);
                }
                while i < extra.len()
                    invariant
                        i <= extra@.len(),
                        model_seq(args@) == first + model_seq(extra@.subrange(0, i as int)),
                    decreases extra.len() - i,
                {
                    let ghost before = args@;
                    args.push(copy_value(&extra[i]));
                    proof {
                        assert(args@.subrange(0, args@.len() - 1) =~= before);
                        let e = extra@.subrange(0, i + 1);
                        assert(e.subrange(0, e.len() - 1) =~= extra@.subrange(0, i as int));
                    }
                    i = i + 1;
                    proof {
                        assert(model_seq(args@) =~= first + model_seq(extra@.subrange(0, i as int)));
                    }
                }
                proof {
                    assert(extra@.subrange(0, extra@.len() as int) =~= extra@);
                }
            },
            None => {
                proof {
                    assert(first + Seq::<ValueModel>::empty() =~= first);
                }
            },
        }
        args
    }

    /// Whether a ledger entry belongs to a captured state: it is not
    /// temporary, it is not the contract's instance entry, and it is owned
    /// by a contract whose identifier is `contract`.
    pub fn keeps_ledger_entry(temporary: bool, instance_key: bool, owner: &Option<Vec<u8>>, contract: &Vec<u8>) -> (r: bool)
        ensures
            r == (!temporary && !instance_key && (owner matches Some(o) && o@ == contract@)),
    {
        if temporary || instance_key {
            return false;
        }
        match owner {
            None => false,
            Some(o) => {
                if o.len() != contract.len() {
                    return false;
                }
                let mut i: usize = 0;
                while i < o.len()
                    invariant
                        !temporary && !instance_key,
                        *owner == Some(*o),
                        o@.len() == contract@.len(),
                        i <= o@.len(),
                        forall|j: int| 0 <= j < i ==> o@[j] == contract@[j],
                    decreases o.len() - i,
                {
                    if o[i] != contract[i] {
                        proof {
                            assert(o@[i as int] != contract@[i as int]);
                        }
                        return false;
                    }
                    i = i + 1;
                }
                proof {
                    assert(o@ =~= contract@);
                }
                true
            },
        }
    }

    /// The outcome of a run, given the state captured before it, what the
    /// migration call reported (the error's text where it failed) and the
    /// capture after it. After a successful call a failed capture fails the
    /// run; after a failed call the run is reported as unsuccessful with the
    /// error's text, and a failed capture falls back to the state before.
    pub fn finish(
        pre_state: ContractState,
        invocation: Result<(), String>,
        post_capture: Result<ContractState, MigrationError>,
        execution_info: ExecutionInfo,
    ) -> (r: Result<MigrationResult, MigrationError>)
        ensures
            invocation is Ok ==> (post_capture matches Err(f) ==> r == Err::<MigrationResult, MigrationError>(f)),
            (invocation is Err || post_capture is Ok) ==> r is Ok,
            r matches Ok(m) ==> ({
                &&& m.success == (invocation is Ok)
                &&& m.pre_state == pre_state
                &&& m.execution_info == execution_info
                &&& (post_capture matches Ok(p) ==> m.post_state == p)
                &&& (post_capture is Err ==> m.post_state.contract_id@ == pre_state.contract_id@
                        && m.post_state.entries_model() == pre_state.entries_model())
                &&& (invocation matches Err(e) ==> m.error == Some(e))
                &&& (invocation is Ok ==> m.error is None)
            }),
    {
        match invocation {
            Ok(()) => match post_capture {
                Ok(post_state) => Ok(MigrationResult {
                    success: true,
                    pre_state,
                    post_state,
                    error: None,
                    execution_info,
                }),
                Err(e) => Err(e),
            },
            Err(message) => {
                let post_state = match post_capture {
                    Ok(p) => p,
                    Err(_) => copy_state(&pre_state),
                };
                Ok(MigrationResult { success: false, pre_state, post_state, error: Some(message), execution_info })
            },
        }
    }
}

} // verus!
