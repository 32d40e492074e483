//! What a drive that targets a layer sets: the layer's parameter, resolved, and for a group the
//! value of the named option.
use vstd::prelude::*;

use crate::layers::{duplicate_option, kind_mismatch, kind_of, option_names, option_values, LayerInfo, LayerTable, OptionOutline};
use crate::parameters::{resolution, typed_resolution, ParameterEntry, ParameterRef, ParameterTable};
use crate::resolution::{duplicate_location, Unresolved};
use crate::transform_error::{TransformError, TransformErrorKind};
use crate::animated_wire::{WireValue, ONE_BITS};
use crate::value::AnimatedValueType;

verus! {

/// The value of the first option named `option`.
pub open spec fn option_value(options: Seq<(String, i64)>, option: Seq<char>) -> Option<i64> {
    if exists|i: int| 0 <= i < options.len() && options[i].0@ == option {
        let first = choose|i: int|
            0 <= i < options.len() && options[i].0@ == option && forall|j: int| 0 <= j < i ==> options[j].0@ != option;
        Some(options[first].1)
    } else {
        None
    }
}

fn find_option(options: &Vec<(String, i64)>, option: &String) -> (found: Option<i64>)
    ensures
        found == option_value(options@, option@),
{
    let mut i: usize = 0;
    while i < options.len()
        invariant
            i <= options@.len(),
            forall|j: int| 0 <= j < i ==> options@[j].0@ != option@,
        decreases options@.len() - i,
    {
        if options[i].0 == *option {
            proof {
                let first = choose|k: int|
                    0 <= k < options@.len() && options@[k].0@ == option@ && forall|j: int|
                        0 <= j < k ==> options@[j].0@ != option@;
                assert(0 <= i < options@.len() && options@[i as int].0@ == option@ && forall|j: int|
                    0 <= j < i ==> options@[j].0@ != option@);
                assert(first == i) by {
                    if first < i {
                    } else if first > i {
                        assert(options@[i as int].0@ != option@);
                    }
                }
            }
            return Some(options[i].1);
        }
        i = i + 1;
    }
    None
}

/// What `da.drive_group(layer, option)` sets: the int parameter of the group and the value of the
/// option, or why it cannot.
pub open spec fn group_drive(
    layers: Map<Seq<char>, LayerInfo>,
    parameters: Seq<crate::parameters::ParameterEntry>,
    layer: Unresolved<String>,
    option: String,
) -> Result<(ParameterRef, i64), TransformError> {
    if !layers.dom().contains(layer.value@) {
        Err(TransformError { at: layer.at, kind: TransformErrorKind::UnknownLayer { name: layer.value } })
    } else {
        match layers[layer.value@] {
            LayerInfo::Group { parameter, options } => match option_value(options@, option@) {
                None => Err(
                    TransformError {
                        at: layer.at,
                        kind: TransformErrorKind::UnknownOption { layer: layer.value, option },
                    },
                ),
                Some(value) => match typed_resolution(parameters, parameter, AnimatedValueType::Int) {
                    Ok(resolved) => Ok((resolved, value)),
                    Err(error) => Err(error),
                },
            },
            other => Err(
                TransformError {
                    at: layer.at,
                    kind: TransformErrorKind::LayerKindMismatch {
                        name: layer.value,
                        expected: "group",
                        found: kind_of(other@),
                    },
                },
            ),
        }
    }
}

/// What `da.drive_puppet(layer)` drives: the float parameter of the puppet layer, or why it cannot.
pub open spec fn puppet_drive(
    layers: Map<Seq<char>, LayerInfo>,
    parameters: Seq<crate::parameters::ParameterEntry>,
    layer: Unresolved<String>,
) -> Result<ParameterRef, TransformError> {
    if !layers.dom().contains(layer.value@) {
        Err(TransformError { at: layer.at, kind: TransformErrorKind::UnknownLayer { name: layer.value } })
    } else {
        match layers[layer.value@] {
            LayerInfo::Puppet { parameter } => typed_resolution(parameters, parameter, AnimatedValueType::Float),
            other => Err(
                TransformError {
                    at: layer.at,
                    kind: TransformErrorKind::LayerKindMismatch {
                        name: layer.value,
                        expected: "puppet",
                        found: kind_of(other@),
                    },
                },
            ),
        }
    }
}

/// Options whose names never repeat an earlier one have distinct names.
proof fn lemma_no_duplicate_option(options: Seq<OptionOutline>)
    requires
        duplicate_option(options) is None,
    ensures
        forall|i: int, j: int| 0 <= i < j < options.len() ==> #[trigger] options[i].name@ != #[trigger] options[j].name@,
    decreases options.len(),
{
    if options.len() > 0 {
        let front = options.drop_last();
        lemma_no_duplicate_option(front);
        assert forall|i: int, j: int| 0 <= i < j < options.len() implies #[trigger] options[i].name@
            != #[trigger] options[j].name@ by {
            if j == options.len() - 1 {
                if options[i].name@ == options[j].name@ {
                    assert(option_names(front)[i] == options.last().name@);
                }
            } else {
                assert(front[i] == options[i] && front[j] == options[j]);
            }
        }
    }
}

/// A drive of a group selects an option by name, and the value it sets is the option's position
/// in the group, counted from one, as the first pass recorded it.
pub proof fn law_option_sets_its_position(options: Seq<OptionOutline>, values: Seq<(String, i64)>, k: int)
    requires
        duplicate_option(options) is None,
        values.map_values(|value: (String, i64)| (value.0@, value.1)) == option_values(options),
        0 <= k < options.len(),
    ensures
        option_value(values, options[k].name@) == Some((k + 1) as i64),
{
    lemma_no_duplicate_option(options);
    let views = values.map_values(|value: (String, i64)| (value.0@, value.1));
    assert(views.len() == options.len());
    assert(views[k] == (options[k].name@, (k + 1) as i64));
    assert(values[k].0@ == options[k].name@);
    let first = choose|i: int|
        0 <= i < values.len() && values[i].0@ == options[k].name@ && forall|j: int|
            0 <= j < i ==> values[j].0@ != options[k].name@;
    assert(0 <= k < values.len() && values[k].0@ == options[k].name@ && forall|j: int|
        0 <= j < k ==> values[j].0@ != options[k].name@) by {
        assert forall|j: int| 0 <= j < k implies values[j].0@ != options[k].name@ by {
            assert(views[j] == (options[j].name@, (j + 1) as i64));
        }
    }
    assert(first == k) by {
        if first < k {
            assert(views[first] == (options[first].name@, (first + 1) as i64));
        } else if first > k {
        }
    }
    assert(views[k].1 == values[k].1);
}

/// Resolves a drive of a group layer to the int parameter it sets and the value of the option.
pub fn drive_group(layers: &LayerTable, parameters: &ParameterTable, layer: &Unresolved<String>, option: &String) -> (result:
    Result<(ParameterRef, i64), TransformError>)
    requires
        layers.wf(),
        parameters.wf(),
    ensures
        result == group_drive(layers.infos(), parameters.entries(), *layer, *option),
{
    let info = match layers.layer(layer) {
        Ok(info) => info,
        Err(error) => return Err(error),
    };
    match info {
        LayerInfo::Group { parameter, options } => {
            let value = match find_option(options, option) {
                Some(value) => value,
                None => {
                    return Err(
                        TransformErrorKind::UnknownOption { layer: layer.value.clone(), option: option.clone() }.at(
                            duplicate_location(&layer.at),
                        ),
                    );
                },
            };
            match parameters.resolve_typed(parameter, AnimatedValueType::Int) {
                Ok(resolved) => Ok((resolved, value)),
                Err(error) => Err(error),
            }
        },
        _ => Err(kind_mismatch(layer, "group", info)),
    }
}

/// Resolves a drive of a puppet layer to the float parameter it drives.
pub fn drive_puppet(layers: &LayerTable, parameters: &ParameterTable, layer: &Unresolved<String>) -> (result: Result<
    ParameterRef,
    TransformError,
>)
    requires
        layers.wf(),
        parameters.wf(),
    ensures
        result == puppet_drive(layers.infos(), parameters.entries(), *layer),
{
    let info = match layers.layer(layer) {
        Ok(info) => info,
        Err(error) => return Err(error),
    };
    match info {
        LayerInfo::Puppet { parameter } => parameters.resolve_typed(parameter, AnimatedValueType::Float),
        _ => Err(kind_mismatch(layer, "puppet", info)),
    }
}

/// What `da.drive_switch(layer, value)` sets: the bool parameter of the switch layer, or why it
/// cannot.
pub open spec fn switch_drive(
    layers: Map<Seq<char>, LayerInfo>,
    parameters: Seq<ParameterEntry>,
    layer: Unresolved<String>,
) -> Result<ParameterRef, TransformError> {
    if !layers.dom().contains(layer.value@) {
        Err(TransformError { at: layer.at, kind: TransformErrorKind::UnknownLayer { name: layer.value } })
    } else {
        match layers[layer.value@] {
            LayerInfo::Switch { parameter } => typed_resolution(parameters, parameter, AnimatedValueType::Bool),
            other => Err(
                TransformError {
                    at: layer.at,
                    kind: TransformErrorKind::LayerKindMismatch {
                        name: layer.value,
                        expected: "switch",
                        found: kind_of(other@),
                    },
                },
            ),
        }
    }
}

/// Resolves a drive of a switch layer to the bool parameter it sets.
pub fn drive_switch(layers: &LayerTable, parameters: &ParameterTable, layer: &Unresolved<String>) -> (result: Result<
    ParameterRef,
    TransformError,
>)
    requires
        layers.wf(),
        parameters.wf(),
    ensures
        result == switch_drive(layers.infos(), parameters.entries(), *layer),
{
    let info = match layers.layer(layer) {
        Ok(info) => info,
        Err(error) => return Err(error),
    };
    match info {
        LayerInfo::Switch { parameter } => parameters.resolve_typed(parameter, AnimatedValueType::Bool),
        _ => Err(kind_mismatch(layer, "switch", info)),
    }
}

/// What a drive of a parameter by name sets: the parameter, when a value of type `written` can
/// be stored in it, or why it cannot.
pub open spec fn parameter_drive(
    parameters: Seq<ParameterEntry>,
    parameter: Unresolved<String>,
    written: AnimatedValueType,
) -> Result<ParameterRef, TransformError> {
    match resolution(parameters, parameter) {
        Err(error) => Err(error),
        Ok(resolved) => if written.spec_casts_to(resolved.context) {
            Ok(resolved)
        } else {
            Err(
                TransformError {
                    at: parameter.at,
                    kind: TransformErrorKind::ValueTypeMismatch { expected: resolved.context, found: written },
                },
            )
        },
    }
}

/// Resolves a drive of a parameter by name and checks that the written value, of type
/// `written`, can be stored in it.
pub fn drive_parameter(parameters: &ParameterTable, parameter: &Unresolved<String>, written: AnimatedValueType) -> (result:
    Result<ParameterRef, TransformError>)
    requires
        parameters.wf(),
    ensures
        result == parameter_drive(parameters.entries(), *parameter, written),
{
    let resolved = match parameters.resolve(parameter) {
        Ok(resolved) => resolved,
        Err(error) => return Err(error),
    };
    if written.casts_to(resolved.context) {
        Ok(resolved)
    } else {
        Err(
            TransformErrorKind::ValueTypeMismatch { expected: resolved.context, found: written }.at(
                duplicate_location(&parameter.at),
            ),
        )
    }
}

/// A drive as a state behavior writes it: a puppet with the amount written, as the bits of a
/// float, if one is; a parameter with the value written.
#[derive(Debug, Clone, PartialEq)]
pub enum DriveOutline {
    Group { layer: Unresolved<String>, option: String },
    Switch { layer: Unresolved<String>, value: Option<bool> },
    Puppet { layer: Unresolved<String>, value: Option<u64> },
    Parameter { parameter: Unresolved<String>, value: WireValue<()> },
}

/// A written value read in the type of the parameter it is stored in.
#[derive(Debug, Clone, PartialEq)]
pub enum DrivenValue {
    /// The value itself, or its exact equivalent in the parameter's type.
    Exact(WireValue<()>),
    /// An int stored in a float parameter: the float nearest to it, which the host computes.
    IntAsFloat(i64),
}

/// The parameter a drive sets and what it sets it to.
#[derive(Debug, Clone, PartialEq)]
pub enum DriveTarget {
    /// The int parameter of a group, set to the value of an option.
    Option(ParameterRef, i64),
    /// The bool parameter of a switch, set on or off.
    Flag(ParameterRef, bool),
    /// The float parameter of a puppet, set to the written amount, or fully (`1.0`) when none is
    /// written; the amount is the bits of a float.
    Puppet(ParameterRef, u64),
    /// A parameter by name, set to the written value read in the parameter's type.
    Written(ParameterRef, DrivenValue),
}

/// `value` read as a value of type `target`, which it casts to: unchanged in its own type, a bool
/// as `0` or `1` in an int and as `0.0` or `1.0` in a float, an int as whether it is nonzero in a
/// bool and as the nearest float in a float.
pub open spec fn driven_value(value: WireValue<()>, target: AnimatedValueType) -> DrivenValue {
    if value.spec_value_type() == target {
        DrivenValue::Exact(value)
    } else {
        match value {
            WireValue::Bool(b) => if target is Int {
                DrivenValue::Exact(WireValue::Int(if b { 1 } else { 0 }))
            } else {
                DrivenValue::Exact(WireValue::Float(if b { ONE_BITS } else { 0 }))
            },
            WireValue::Int(n) => if target is Bool {
                DrivenValue::Exact(WireValue::Bool(n != 0))
            } else {
                DrivenValue::IntAsFloat(n)
            },
            _ => DrivenValue::Exact(value),
        }
    }
}

/// Reads `value` in the type `target` of the parameter it is stored in.
pub fn drive_value(value: &WireValue<()>, target: AnimatedValueType) -> (driven: DrivenValue)
    requires
        value.spec_value_type().spec_casts_to(target),
    ensures
        driven == driven_value(*value, target),
{
    if value.value_type() == target {
        return DrivenValue::Exact(value.duplicate());
    }
    match value {
        WireValue::Bool(b) => if target == AnimatedValueType::Int {
            DrivenValue::Exact(WireValue::Int(if *b { 1 } else { 0 }))
        } else {
            DrivenValue::Exact(WireValue::Float(if *b { ONE_BITS } else { 0 }))
        },
        WireValue::Int(n) => if target == AnimatedValueType::Bool {
            DrivenValue::Exact(WireValue::Bool(*n != 0))
        } else {
            DrivenValue::IntAsFloat(*n)
        },
        _ => DrivenValue::Exact(value.duplicate()),
    }
}

/// What a drive sets, or why it cannot.
pub open spec fn drive_target(
    layers: Map<Seq<char>, LayerInfo>,
    parameters: Seq<ParameterEntry>,
    drive: DriveOutline,
) -> Result<DriveTarget, TransformError> {
    match drive {
        DriveOutline::Group { layer, option } => match group_drive(layers, parameters, layer, option) {
            Ok((parameter, value)) => Ok(DriveTarget::Option(parameter, value)),
            Err(error) => Err(error),
        },
        DriveOutline::Switch { layer, value } => match switch_drive(layers, parameters, layer) {
            Ok(parameter) => Ok(DriveTarget::Flag(parameter, value.unwrap_or(true))),
            Err(error) => Err(error),
        },
        DriveOutline::Puppet { layer, value } => match puppet_drive(layers, parameters, layer) {
            Ok(parameter) => Ok(DriveTarget::Puppet(parameter, value.unwrap_or(ONE_BITS))),
            Err(error) => Err(error),
        },
        DriveOutline::Parameter { parameter, value } => match parameter_drive(
            parameters,
            parameter,
            value.spec_value_type(),
        ) {
            Ok(resolved) => Ok(DriveTarget::Written(resolved, driven_value(value, resolved.context))),
            Err(error) => Err(error),
        },
    }
}

/// Resolves what a drive sets: a layer-targeting drive becomes the parameter of that layer.
pub fn drive(layers: &LayerTable, parameters: &ParameterTable, requested: &DriveOutline) -> (result: Result<
    DriveTarget,
    TransformError,
>)
    requires
        layers.wf(),
        parameters.wf(),
    ensures
        result == drive_target(layers.infos(), parameters.entries(), *requested),
{
    match requested {
        DriveOutline::Group { layer, option } => match drive_group(layers, parameters, layer, option) {
            Ok((parameter, value)) => Ok(DriveTarget::Option(parameter, value)),
            Err(error) => Err(error),
        },
        DriveOutline::Switch { layer, value } => match drive_switch(layers, parameters, layer) {
            Ok(parameter) => Ok(
                DriveTarget::Flag(
                    parameter,
                    match value {
                        Some(value) => *value,
                        None => true,
                    },
                ),
            ),
            Err(error) => Err(error),
        },
        DriveOutline::Puppet { layer, value } => match drive_puppet(layers, parameters, layer) {
            Ok(parameter) => Ok(
                DriveTarget::Puppet(
                    parameter,
                    match value {
                        Some(value) => *value,
                        None => ONE_BITS,
                    },
                ),
            ),
            Err(error) => Err(error),
        },
        DriveOutline::Parameter { parameter, value } => match drive_parameter(
            parameters,
            parameter,
            value.value_type(),
        ) {
            Ok(resolved) => {
                let driven = drive_value(value, resolved.context);
                Ok(DriveTarget::Written(resolved, driven))
            },
            Err(error) => Err(error),
        },
    }
}

/// A written value is stored in its parameter's type without changing what it means: a value of
/// that type unchanged; a bool as `1` or `0` in an int, as `1.0` or `0.0` in a float; an int as
/// whether it is nonzero in a bool, and for a float parameter handed to the host as that int.
pub proof fn law_driven_value_keeps_meaning(value: WireValue<()>, target: AnimatedValueType)
    requires
        value.spec_value_type().spec_casts_to(target),
    ensures
        match driven_value(value, target) {
            DrivenValue::Exact(stored) => {
                &&& stored.spec_value_type() == target
                &&& (value.spec_value_type() == target ==> stored == value)
                &&& (value matches WireValue::Bool(b) ==> (stored matches WireValue::Int(n) ==> (n == 1 <==> b) && (n
                    == 0 <==> !b)))
                &&& (value matches WireValue::Bool(b) ==> (stored matches WireValue::Float(bits) ==> bits == if b {
                    0x3ff0_0000_0000_0000u64
                } else {
                    0u64
                }))
                &&& (value matches WireValue::Int(n) ==> (stored matches WireValue::Bool(b) ==> (b <==> n != 0)))
            },
            DrivenValue::IntAsFloat(n) => value == WireValue::<()>::Int(n) && target == AnimatedValueType::Float,
        },
{
}

} // verus!
