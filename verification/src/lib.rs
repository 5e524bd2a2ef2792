//! Compiles mother-tongue product requirements into a typed blueprint and the
//! plans of a deterministic Rust code generator.
use vstd::prelude::*;

pub mod text;
pub mod textmap;
pub mod digest;
pub mod encode;
pub mod descriptor;
pub mod diagnostic;
pub mod observability;
pub mod blueprint;
pub mod policy;
pub mod inference;
pub mod artifact;
pub mod capability;
pub mod compiler;
pub mod rust_backend;

pub use artifact::{ArtifactFile, ArtifactSet};
pub use blueprint::{
    ApplicationDefinition, AppliedDefault, Blueprint, CapabilityRequirement, DomainDefinition,
    DomainMetadata, DomainOperation, EnumDefinition, EnumValueDefinition, FieldBinding,
    FieldDefinition, FieldType, FunctionDefinition, HttpMethod, InferenceDecision,
    InterfaceDefinition, LogicStep, NavigationDefinition, NavigationEntry, OperationIntent,
    OperationPlanStep, PermissionDefinition, PermissionRule, Requirement, StructDefinition,
    ValidationRule, ValueTransform, ViewActionDefinition, ViewDefinition, ViewLayout,
};
pub use capability::{FixtureMapProvider, ProviderProfile};
pub use compiler::{CompileRequest, CompileResult, CompileSession};
pub use descriptor::{normalize_inferred_stem, DescriptorEncoder, SemanticDescriptor};
pub use diagnostic::{BreakingChange, Diagnostic, DiagnosticLevel, ImpactArea};
pub use encode::Encode;
pub use inference::engine::{InferenceError, InferenceResult, MotherTongueInferenceEngine};
pub use observability::{
    CompileStage, CompileStageObservation, CompileStageStatus, CompileTrace, InferenceMetrics,
    InferenceMode,
};
pub use rust_backend::RustBackend;

verus! {

} // verus!
