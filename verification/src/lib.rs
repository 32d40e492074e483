//! Declarative avatar compiler: the parts that record layers and parameters, resolve and intern
//! references, merge animation value sets, build the states and transitions of each layer and the
//! controls of the menu, word and report errors, and exchange compiled results with the client in
//! a versioned binary format.
use vstd::prelude::*;

pub mod animated_wire;
pub mod avatar_codec;
pub mod bindings;
pub mod bytes;
pub mod codec;
pub mod compile;
pub mod controller;
pub mod declaration;
pub mod describe;
pub mod diagnostics;
pub mod drives;
pub mod external;
pub mod first_pass;
pub mod header;
pub mod host;
pub mod interop;
pub mod layers;
pub mod menu_codec;
pub mod menu_pass;
pub mod modules;
pub mod parameters;
pub mod passes;
pub mod puppet_pass;
pub mod raw_pass;
pub mod reference_checks;
pub mod resolution;
pub mod state_graph;
pub mod target;
pub mod target_codec;
pub mod target_pass;
pub mod text;
pub mod transform_error;
pub mod unity_external;
pub mod value;
pub mod value_set;
pub mod wire;

verus! {
} // verus!
