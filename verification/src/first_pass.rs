//! The first pass over a declaration: every declared parameter, then every layer, recorded by
//! name without resolving anything, with every error found on the way.
use vstd::prelude::*;

use crate::layers::{collect_layers, LayerOutline, LayerTable};
use crate::parameters::{collect_parameters, collect_parameters_spec, ParameterOutline, ParameterTable};
use crate::transform_error::TransformError;

verus! {

/// What the first pass records: the parameters, the layers, and the errors of the parameters
/// followed by those of the layers.
pub struct Collected {
    pub parameters: ParameterTable,
    pub layers: LayerTable,
    pub errors: Vec<TransformError>,
}

/// Records the parameter entries and then the layers of a declaration.
pub fn collect(parameters: &[ParameterOutline], layers: &Vec<LayerOutline>) -> (collected: Collected)
    requires
        forall|i: int|
            0 <= i < layers@.len() ==> (#[trigger] layers@[i] matches LayerOutline::Group { options, .. }
                ==> options@.len() < i64::MAX),
    ensures
        collected.parameters.wf(),
        collected.layers.wf(),
        exists|label: String|
            label@ == "VRChat"@ && collected.parameters.entries() == collect_parameters_spec(parameters@, label).0
                && collected.errors@ == collect_parameters_spec(parameters@, label).2 + collect_layers(
                Map::empty(),
                layers@,
            ).1,
        collected.layers.layers() == collect_layers(Map::empty(), layers@).0,
{
    let (table, mut errors) = collect_parameters(parameters);
    let (layer_table, mut layer_errors) = LayerTable::collect(layers);
    errors.append(&mut layer_errors);
    Collected { parameters: table, layers: layer_table, errors }
}

} // verus!
