//! Plain data of a declaration that the transform reads as it is.
use vstd::prelude::*;

use crate::resolution::{SourceLocation, Unresolved};

verus! {

/// How far a parameter is visible.
#[derive(Debug, Clone, Copy, PartialEq, Eq, PartialOrd, Ord, Hash)]
pub enum ParameterScope {
    /// Synced to remote players.
    Synced,
    /// Expression parameter that is not synced.
    Local,
    /// Animator-only parameter, not exported as an expression parameter.
    Internal,
}

/// Set of parameters that the platform defines.
#[derive(Debug, Clone, Copy, PartialEq, Eq, Structural, PartialOrd, Ord, Hash)]
pub enum ProvidedParameterGroup {
    Vrchat,
}

/// What decides the state of a switch layer.
#[derive(Debug, Clone, PartialEq)]
pub enum SwitchSource {
    Parameter(Unresolved<String>),
    Gate(Unresolved<String>),
}

/// Entry of the `exports` block.
#[derive(Debug, Clone, PartialEq)]
pub enum Export {
    /// Declares a gate that other assets can drive.
    Gate { name: String, at: Option<SourceLocation> },
    /// Binds a gate to a parameter.
    Guard { gate: Unresolved<String>, parameter: Unresolved<String> },
}

} // verus!
