//! Inference: from mother-tongue product source to a typed blueprint.
pub mod factory;
pub mod outline;
pub mod fields;
pub mod application;
pub mod acquisition;
pub mod engine;
