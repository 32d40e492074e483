//! Compiling what an animation entry animates: Unity-side references are interned into the
//! tables the client resolves, and a parameter the target names is resolved.
use vstd::prelude::*;

use crate::external::interned;
use crate::parameters::{typed_resolution, ParameterTable};
use crate::target::{
    AnimatedAnimatorProperty, AnimatedAnimatorTarget, AnimatedComponentProperty, AnimatedComponentTarget,
    AnimatedGameObjectTarget, AnimatedRendererProperty, AnimatedRendererTarget, AnimatedTarget, Compiled, Declared,
};
use crate::transform_error::TransformError;
use crate::unity_external::Externals;
use crate::value::AnimatedValueType;

verus! {

fn copy_renderer_property(property: &AnimatedRendererProperty) -> (copy: AnimatedRendererProperty)
    ensures
        copy == *property,
{
    match property {
        AnimatedRendererProperty::Enabled => AnimatedRendererProperty::Enabled,
        AnimatedRendererProperty::BlendShape { name } => AnimatedRendererProperty::BlendShape { name: name.clone() },
        AnimatedRendererProperty::Material { slot } => AnimatedRendererProperty::Material { slot: *slot },
        AnimatedRendererProperty::MaterialProperty { name } => AnimatedRendererProperty::MaterialProperty {
            name: name.clone(),
        },
        AnimatedRendererProperty::Serialized { name } => AnimatedRendererProperty::Serialized { name: name.clone() },
    }
}

fn copy_component_property(property: &AnimatedComponentProperty) -> (copy: AnimatedComponentProperty)
    ensures
        copy == *property,
{
    match property {
        AnimatedComponentProperty::Enabled => AnimatedComponentProperty::Enabled,
        AnimatedComponentProperty::Serialized { name } => AnimatedComponentProperty::Serialized { name: name.clone() },
    }
}

/// Interns the Unity-side references of a target and resolves the animator parameter it may name.
/// An animator parameter target needs a float parameter; paths and component types are interned
/// into the tables of `externals`, which remember every line that wrote them.
pub fn compile_target(externals: &mut Externals, parameters: &ParameterTable, target: &AnimatedTarget<Declared>) -> (result:
    Result<AnimatedTarget<Compiled>, TransformError>)
    requires
        parameters.wf(),
        old(externals).object_paths@.len() < u32::MAX,
        old(externals).component_types@.len() < u32::MAX,
    ensures
        final(externals).assets@ == old(externals).assets@,
        final(externals).needs_relative_root == old(externals).needs_relative_root,
        match target {
            AnimatedTarget::AnimatorSelf(animator) => match animator.property {
                AnimatedAnimatorProperty::ParameterFloatValue { name } => {
                    &&& final(externals).object_paths@ == old(externals).object_paths@
                    &&& final(externals).component_types@ == old(externals).component_types@
                    &&& match typed_resolution(parameters.entries(), name, AnimatedValueType::Float) {
                        Ok(resolved) => result == Ok::<AnimatedTarget<Compiled>, TransformError>(
                            AnimatedTarget::AnimatorSelf(
                                AnimatedAnimatorTarget {
                                    property: AnimatedAnimatorProperty::ParameterFloatValue { name: resolved },
                                },
                            ),
                        ),
                        Err(error) => result == Err::<AnimatedTarget<Compiled>, TransformError>(error),
                    }
                },
            },
            AnimatedTarget::GameObject(object) => {
                let (paths, index) = interned(
                    old(externals).object_paths@,
                    object.path.value@,
                    object.path.at.deep_view(),
                );
                &&& final(externals).object_paths@ == paths
                &&& final(externals).component_types@ == old(externals).component_types@
                &&& result matches Ok(AnimatedTarget::GameObject(compiled)) && compiled.path.spec_index() == index
                    && compiled.property == object.property
            },
            AnimatedTarget::Renderer(renderer) => {
                let (paths, index) = interned(
                    old(externals).object_paths@,
                    renderer.path.value@,
                    renderer.path.at.deep_view(),
                );
                &&& final(externals).object_paths@ == paths
                &&& final(externals).component_types@ == old(externals).component_types@
                &&& result matches Ok(AnimatedTarget::Renderer(compiled)) && compiled.path.spec_index() == index
                    && compiled.renderer_type == renderer.renderer_type && compiled.property == renderer.property
            },
            AnimatedTarget::Component(component) => {
                let (paths, path_index) = interned(
                    old(externals).object_paths@,
                    component.path.value@,
                    component.path.at.deep_view(),
                );
                let (types, type_index) = interned(
                    old(externals).component_types@,
                    component.component_type.value@,
                    component.component_type.at.deep_view(),
                );
                &&& final(externals).object_paths@ == paths
                &&& final(externals).component_types@ == types
                &&& result matches Ok(AnimatedTarget::Component(compiled)) && compiled.path.spec_index() == path_index
                    && compiled.component_type.spec_index() == type_index && compiled.property == component.property
                    && compiled.value_type == component.value_type
            },
        },
{
    match target {
        AnimatedTarget::AnimatorSelf(animator) => match &animator.property {
            AnimatedAnimatorProperty::ParameterFloatValue { name } => {
                match parameters.resolve_typed(name, AnimatedValueType::Float) {
                    Ok(resolved) => Ok(
                        AnimatedTarget::AnimatorSelf(
                            AnimatedAnimatorTarget {
                                property: AnimatedAnimatorProperty::ParameterFloatValue { name: resolved },
                            },
                        ),
                    ),
                    Err(error) => Err(error),
                }
            },
        },
        AnimatedTarget::GameObject(object) => {
            let path = externals.object_paths.intern(object.path.duplicate());
            Ok(AnimatedTarget::GameObject(AnimatedGameObjectTarget { path, property: object.property }))
        },
        AnimatedTarget::Renderer(renderer) => {
            let path = externals.object_paths.intern(renderer.path.duplicate());
            Ok(
                AnimatedTarget::Renderer(
                    AnimatedRendererTarget {
                        path,
                        renderer_type: renderer.renderer_type.clone(),
                        property: copy_renderer_property(&renderer.property),
                    },
                ),
            )
        },
        AnimatedTarget::Component(component) => {
            let path = externals.object_paths.intern(component.path.duplicate());
            let component_type = externals.component_types.intern(component.component_type.duplicate());
            Ok(
                AnimatedTarget::Component(
                    AnimatedComponentTarget {
                        path,
                        component_type,
                        property: copy_component_property(&component.property),
                        value_type: component.value_type,
                    },
                ),
            )
        },
    }
}

} // verus!
