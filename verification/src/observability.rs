//! Stage-by-stage observations of one compilation.
use vstd::prelude::*;

use crate::text::owned;

verus! {

/// The observable stages of the compiler, in the order they run.
#[derive(Clone, Copy, Debug, PartialEq, Eq, Structural)]
pub enum CompileStage {
    SourceContract,
    Inference,
    CapabilityResolution,
    BlueprintPolicy,
    RustGeneration,
}

/// How a stage ended.
#[derive(Clone, Copy, Debug, PartialEq, Eq, Structural)]
pub enum CompileStageStatus {
    Succeeded,
    Failed,
}

/// The recorded outcome and duration of one stage.
#[derive(Clone, Debug, PartialEq, Eq, Structural)]
pub struct CompileStageObservation {
    pub stage: CompileStage,
    pub status: CompileStageStatus,
    pub duration_ms: u64,
}

/// How the inference engine ran.
#[derive(Clone, Copy, Debug, PartialEq, Eq, Structural)]
pub enum InferenceMode {
    Deterministic,
    Remote,
}

/// Usage figures reported by the inference engine.
#[derive(Clone, Debug, PartialEq, Eq)]
pub struct InferenceMetrics {
    pub engine: String,
    pub mode: InferenceMode,
    pub model: Option<String>,
    pub input_tokens: u64,
    pub output_tokens: u64,
    pub total_tokens: u64,
    pub cached_input_tokens: u64,
    pub reused_semantics: u64,
}

impl InferenceMetrics {
    /// Metrics of a deterministic engine: no model and no token usage.
    pub fn deterministic(engine: &str) -> (r: Self)
        ensures
            r.engine@ == engine@,
            r.mode == InferenceMode::Deterministic,
            r.model is None,
            r.input_tokens == 0,
            r.output_tokens == 0,
            r.total_tokens == 0,
            r.cached_input_tokens == 0,
            r.reused_semantics == 0,
    {
        InferenceMetrics {
            engine: owned(engine),
            mode: InferenceMode::Deterministic,
            model: None,
            input_tokens: 0,
            output_tokens: 0,
            total_tokens: 0,
            cached_input_tokens: 0,
            reused_semantics: 0,
        }
    }
}

/// Everything observed during one compilation.
#[derive(Clone, Debug, PartialEq, Eq)]
pub struct CompileTrace {
    pub stages: Vec<CompileStageObservation>,
    pub inference: InferenceMetrics,
}

impl Default for CompileTrace {
    /// No stage observed yet; the engine is still unresolved.
    fn default() -> (r: Self)
        ensures
            r.stages@.len() == 0,
            r.inference.engine@ == "unresolved"@,
            r.inference.mode == InferenceMode::Deterministic,
            r.inference.model is None,
            r.inference.reused_semantics == 0,
            r.inference.input_tokens == 0,
            r.inference.output_tokens == 0,
            r.inference.total_tokens == 0,
            r.inference.cached_input_tokens == 0,
    {
        CompileTrace { stages: Vec::new(), inference: InferenceMetrics::deterministic("unresolved") }
    }
}

} // verus!
