//! Mapping of mother-tongue semantic elements to their deterministic code identity.
use vstd::prelude::*;

verus! {

/// An element with a code identity.
pub trait Encode {
    fn encode(&self) -> &str;
}

} // verus!
