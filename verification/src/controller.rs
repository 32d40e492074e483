//! Compiled controller pieces that refer to states by index and to parameters after resolution.
use vstd::prelude::*;

use crate::resolution::Resolved;
use crate::value::{AnimatedValueType, MergeMode, PathMode};

verus! {

/// Where a transition starts: the entry node or a state, by index.
#[derive(Debug, Clone, Copy, PartialEq, Eq)]
pub enum TransitionSource {
    Entry,
    State(usize),
}

/// Where a transition ends: a state, by index, or the exit node.
#[derive(Debug, Clone, Copy, PartialEq, Eq)]
pub enum TransitionTarget {
    State(usize),
    Exit,
}

/// Float parameter a puppet control moves, with optional labels for its ends.
#[derive(Debug, Clone, PartialEq)]
pub struct MenuAxis {
    pub parameter: Resolved<String, AnimatedValueType>,
    pub positive: Option<String>,
    pub negative: Option<String>,
}

/// How a compiled controller is applied to its playable layer.
#[derive(Debug, Clone, Copy, PartialEq, Eq)]
pub struct ControllerSettings {
    pub mode: MergeMode,
    pub priority: i32,
    pub path_mode: PathMode,
}

/// The settings of a controller, with what the script left out taken as appending, priority 0 and
/// paths from the avatar root.
pub fn controller_settings(mode: Option<MergeMode>, priority: Option<i32>, path_mode: Option<PathMode>) -> (settings:
    ControllerSettings)
    ensures
        settings.mode == mode.unwrap_or(MergeMode::Append),
        settings.priority == priority.unwrap_or(0i32),
        settings.path_mode == path_mode.unwrap_or(PathMode::Absolute),
{
    ControllerSettings {
        mode: match mode {
            Some(mode) => mode,
            None => MergeMode::Append,
        },
        priority: match priority {
            Some(priority) => priority,
            None => 0,
        },
        path_mode: match path_mode {
            Some(path_mode) => path_mode,
            None => PathMode::Absolute,
        },
    }
}

/// Whether the client has to supply a root for relative paths: some controller uses them.
pub fn needs_relative_root(path_modes: &[PathMode]) -> (needed: bool)
    ensures
        needed == exists|i: int| 0 <= i < path_modes@.len() && path_modes@[i] is Relative,
{
    let mut i: usize = 0;
    while i < path_modes.len()
        invariant
            i <= path_modes@.len(),
            forall|j: int| 0 <= j < i ==> !(path_modes@[j] is Relative),
        decreases path_modes@.len() - i,
    {
        if let PathMode::Relative = path_modes[i] {
            return true;
        }
        i = i + 1;
    }
    false
}

} // verus!
