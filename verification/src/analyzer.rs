//! Analysis of a compiled contract: its WebAssembly custom sections are
//! listed by `wasmparser`, and the interface sections are read into
//! functions, types and metadata.
use vstd::prelude::*;
use wasmparser::{Parser, Payload};
use crate::analysis::{
    ContractAnalysis, ContractAnalysisView, EnvMetadata, FunctionAnalysis, FunctionView, Metadata,
    TypeAnalysis, TypeView, functions_view, types_view,
};
use crate::contract_spec::{
    env_entries_from, meta_entries_from, read_env_section, read_meta_section, read_spec_section,
    spec_entries_from,
};
use crate::text::same_text;

verus! {

/// Why a contract could not be analyzed.
#[derive(Debug)]
pub enum AnalyzerError {
    InvalidWasm(String),
    MissingContractSpec,
    XdrDecodeError(String),
}

/// View of an `AnalyzerError`.
pub enum AnalyzerErrorView {
    InvalidWasm(Seq<char>),
    MissingContractSpec,
    XdrDecodeError(Seq<char>),
}

impl View for AnalyzerError {
    type V = AnalyzerErrorView;

    open spec fn view(&self) -> AnalyzerErrorView {
        match self {
            AnalyzerError::InvalidWasm(m) => AnalyzerErrorView::InvalidWasm(m@),
            AnalyzerError::MissingContractSpec => AnalyzerErrorView::MissingContractSpec,
            AnalyzerError::XdrDecodeError(m) => AnalyzerErrorView::XdrDecodeError(m@),
        }
    }
}

/// Reads the interface of compiled contracts.
pub struct Analyzer;

/// One payload of a WebAssembly module, in the order the parser yields them.
pub enum WasmPayload {
    Custom { name: String, data: Vec<u8> },
    Other,
    Invalid(String),
}

/// View of a `WasmPayload`.
pub enum PayloadView {
    Custom { name: Seq<char>, data: Seq<u8> },
    Other,
    Invalid(Seq<char>),
}

impl View for WasmPayload {
    type V = PayloadView;

    open spec fn view(&self) -> PayloadView {
        match self {
            WasmPayload::Custom { name, data } => PayloadView::Custom { name: name@, data: data@ },
            WasmPayload::Other => PayloadView::Other,
            WasmPayload::Invalid(m) => PayloadView::Invalid(m@),
        }
    }
}

/// The payloads the parser yields for a module.
pub uninterp spec fn wasm_payloads_of(bytes: Seq<u8>) -> Seq<PayloadView>;

/// Runs `wasmparser::Parser::parse_all` (offset 0) over `bytes` and lists
/// every item it yields: a custom section by its name and contents, an
/// error by its message, any other payload as `Other`.
#[verifier::external_body]
fn wasm_payloads(bytes: &[u8]) -> (r: Vec<WasmPayload>)
    ensures
        r@.map_values(|p: WasmPayload| p@) == wasm_payloads_of(bytes@),
{
    let mut out = Vec::new();
    for payload in Parser::new(0).parse_all(bytes) {
        out.push(match payload {
            Ok(Payload::CustomSection(c)) => WasmPayload::Custom { name: c.name().to_string(), data: c.data().to_vec() },
            Ok(_) => WasmPayload::Other,
            Err(e) => WasmPayload::Invalid(e.to_string()),
        });
    }
    out
}

/// What has been found after some payloads.
pub struct ScanView {
    pub found_spec: bool,
    pub has_metadata: bool,
    pub has_env_metadata: bool,
    pub env_metadata: Option<EnvMetadata>,
    pub metadata: Map<Seq<char>, Seq<char>>,
    pub functions: Seq<FunctionView>,
    pub types: Seq<TypeView>,
}

/// Nothing found yet.
pub open spec fn scan_start() -> ScanView {
    ScanView {
        found_spec: false,
        has_metadata: false,
        has_env_metadata: false,
        env_metadata: None,
        metadata: Map::empty(),
        functions: Seq::empty(),
        types: Seq::empty(),
    }
}

/// What one payload adds: a parse error ends the analysis; a
/// `contractspecv0` section adds functions and types (or ends the analysis
/// with a decoding error); `contractmetav0` adds metadata;
/// `contractenvmetav0` sets the interface version; anything else is passed.
pub open spec fn scan_step(st: ScanView, p: PayloadView) -> Result<ScanView, AnalyzerErrorView> {
    match p {
        PayloadView::Invalid(m) => Err(AnalyzerErrorView::InvalidWasm(m)),
        PayloadView::Other => Ok(st),
        PayloadView::Custom { name, data } => {
            if name == "contractspecv0"@ {
                match spec_entries_from(data, 0, (st.functions, st.types)) {
                    Err(m) => Err(AnalyzerErrorView::XdrDecodeError(m)),
                    Ok(acc) => Ok(ScanView {
                        found_spec: true,
                        has_metadata: st.has_metadata,
                        has_env_metadata: st.has_env_metadata,
                        env_metadata: st.env_metadata,
                        metadata: st.metadata,
                        functions: acc.0,
                        types: acc.1,
                    }),
                }
            } else if name == "contractmetav0"@ {
                Ok(ScanView {
                    found_spec: st.found_spec,
                    has_metadata: true,
                    has_env_metadata: st.has_env_metadata,
                    env_metadata: st.env_metadata,
                    metadata: meta_entries_from(data, 0, st.metadata),
                    functions: st.functions,
                    types: st.types,
                })
            } else if name == "contractenvmetav0"@ {
                Ok(ScanView {
                    found_spec: st.found_spec,
                    has_metadata: st.has_metadata,
                    has_env_metadata: true,
                    env_metadata: env_entries_from(data, 0, st.env_metadata),
                    metadata: st.metadata,
                    functions: st.functions,
                    types: st.types,
                })
            } else {
                Ok(st)
            }
        },
    }
}

/// The payloads taken in order, up to the first error.
pub open spec fn scan(ps: Seq<PayloadView>) -> Result<ScanView, AnalyzerErrorView>
    decreases ps.len(),
{
    if ps.len() == 0 {
        Ok(scan_start())
    } else {
        match scan(ps.drop_last()) {
            Err(e) => Err(e),
            Ok(st) => scan_step(st, ps.last()),
        }
    }
}

/// The analysis of a module: what the scan of its payloads found, provided
/// it found a `contractspecv0` section; metadata only where some was stored.
pub open spec fn analysis_of(bytes: Seq<u8>) -> Result<ContractAnalysisView, AnalyzerErrorView> {
    analysis_of_payloads(wasm_payloads_of(bytes))
}

/// The analysis of a list of payloads.
pub open spec fn analysis_of_payloads(ps: Seq<PayloadView>) -> Result<ContractAnalysisView, AnalyzerErrorView> {
    match scan(ps) {
        Err(e) => Err(e),
        Ok(st) => {
            if !st.found_spec {
                Err(AnalyzerErrorView::MissingContractSpec)
            } else {
                Ok(ContractAnalysisView {
                    has_metadata: st.has_metadata,
                    has_env_metadata: st.has_env_metadata,
                    env_metadata: st.env_metadata,
                    metadata: if st.metadata.dom().len() == 0 { None } else { Some(st.metadata) },
                    functions: st.functions,
                    types: st.types,
                })
            }
        },
    }
}

/// Once the payloads up to `n` end in an error, so do all of them.
proof fn lemma_scan_error_sticks(ps: Seq<PayloadView>, n: int)
    requires
        0 <= n <= ps.len(),
        scan(ps.subrange(0, n)) is Err,
    ensures
        scan(ps) == scan(ps.subrange(0, n)),
    decreases ps.len() - n,
{
    if n < ps.len() {
        let p = ps.subrange(0, n + 1);
        assert(p.drop_last() =~= ps.subrange(0, n));
        lemma_scan_error_sticks(ps, n + 1);
    } else {
        assert(ps.subrange(0, n) =~= ps);
    }
}

impl Analyzer {
    /// Lists the module's payloads with the parser and reads them (see
    /// `analyze_payloads`).
    pub fn analyze(wasm_bytes: &[u8]) -> (r: Result<ContractAnalysis, AnalyzerError>)
        ensures
            (match r {
                Ok(a) => analysis_of(wasm_bytes@) == Ok::<ContractAnalysisView, AnalyzerErrorView>(a@),
                Err(e) => analysis_of(wasm_bytes@) == Err::<ContractAnalysisView, AnalyzerErrorView>(e@),
            }),
    {
        let payloads = wasm_payloads(wasm_bytes);
        Self::analyze_payloads(&payloads)
    }

    /// Reads a module's payloads in order: a parse error gives `InvalidWasm`
    /// with its message; each `contractspecv0` section adds the functions,
    /// structs, unions and enums it declares, or gives `XdrDecodeError` with
    /// the message of an entry that does not decode; each `contractmetav0`
    /// section sets `has_metadata` and stores its key/value pairs; each
    /// `contractenvmetav0` section sets `has_env_metadata` and its last
    /// interface version. Without a `contractspecv0` section the result is
    /// `MissingContractSpec`.
    pub fn analyze_payloads(payloads: &Vec<WasmPayload>) -> (r: Result<ContractAnalysis, AnalyzerError>)
        ensures
            (match r {
                Ok(a) => analysis_of_payloads(payloads@.map_values(|p: WasmPayload| p@))
                    == Ok::<ContractAnalysisView, AnalyzerErrorView>(a@),
                Err(e) => analysis_of_payloads(payloads@.map_values(|p: WasmPayload| p@))
                    == Err::<ContractAnalysisView, AnalyzerErrorView>(e@),
            }),
    {
        let ghost pv = payloads@.map_values(|p: WasmPayload| p@);
        let mut found_spec = false;
        let mut has_metadata = false;
        let mut has_env_metadata = false;
        let mut env_metadata: Option<EnvMetadata> = None;
        let mut metadata = Metadata::new();
        let mut functions: Vec<FunctionAnalysis> = Vec::new();
        let mut types: Vec<TypeAnalysis> = Vec::new();
        let mut i: usize = 0;
        proof {
            assert(pv.subrange(0, 0) =~= Seq::<PayloadView>::empty());
            assert(functions_view(functions@) =~= Seq::<FunctionView>::empty());
            assert(types_view(types@) =~= Seq::<TypeView>::empty());
        }
        while i < payloads.len()
            invariant
                pv == payloads@.map_values(|p: WasmPayload| p@),
                i <= payloads@.len(),
                scan(pv.subrange(0, i as int)) == Ok::<ScanView, AnalyzerErrorView>(ScanView {
                    found_spec,
                    has_metadata,
                    has_env_metadata,
                    env_metadata,
                    metadata: metadata.view(),
                    functions: functions_view(functions@),
                    types: types_view(types@),
                }),
            decreases payloads.len() - i,
        {
            proof {
                assert(pv.subrange(0, i + 1).drop_last() =~= pv.subrange(0, i as int));
                assert(pv.subrange(0, i + 1).last() == payloads@[i as int]@);
            }
            match &payloads[i] {
                WasmPayload::Invalid(m) => {
                    proof {
                        lemma_scan_error_sticks(pv, i + 1);
                    }
                    return Err(AnalyzerError::InvalidWasm(m.clone()));
                },
                WasmPayload::Other => {},
                WasmPayload::Custom { name, data } => {
                    if same_text(name.as_str(), "contractspecv0") {
                        match read_spec_section(data.as_slice(), &mut functions, &mut types) {
                            Err(m) => {
                                proof {
                                    lemma_scan_error_sticks(pv, i + 1);
                                }
                                return Err(AnalyzerError::XdrDecodeError(m));
                            },
                            Ok(()) => {
                                found_spec = true;
                            },
                        }
                    } else if same_text(name.as_str(), "contractmetav0") {
                        has_metadata = true;
                        read_meta_section(data.as_slice(), &mut metadata);
                    } else if same_text(name.as_str(), "contractenvmetav0") {
                        has_env_metadata = true;
                        env_metadata = read_env_section(data.as_slice(), env_metadata);
                    }
                },
            }
            i = i + 1;
        }
        proof {
            assert(pv.subrange(0, i as int) =~= pv);
        }
        if !found_spec {
            return Err(AnalyzerError::MissingContractSpec);
        }
        let no_metadata = metadata.is_empty();
        Ok(ContractAnalysis {
            has_metadata,
            has_env_metadata,
            env_metadata,
            metadata: if no_metadata { None } else { Some(metadata) },
            functions,
            types,
        })
    }
}

} // verus!
