//! Naming animated targets the way a script writer would recognize them, for error messages.
use vstd::prelude::*;
use vstd::string::*;

use crate::target::{
    AnimatedAnimatorProperty, AnimatedComponentProperty, AnimatedGameObjectProperty, AnimatedRendererProperty,
    AnimatedTarget, Declared,
};
use crate::text::{decimal, push_decimal};

verus! {

/// A name between backticks.
pub open spec fn quoted(name: Seq<char>) -> Seq<char> {
    "`"@ + name + "`"@
}

/// The word for an animated property of a GameObject; both kinds of rotation are a rotation.
pub open spec fn game_object_property_text(property: AnimatedGameObjectProperty) -> Seq<char> {
    match property {
        AnimatedGameObjectProperty::Active => "active"@,
        AnimatedGameObjectProperty::TransformPosition => "position"@,
        AnimatedGameObjectProperty::TransformRotationQuaternion => "rotation"@,
        AnimatedGameObjectProperty::TransformRotationEuler => "rotation"@,
        AnimatedGameObjectProperty::TransformScale => "scale"@,
    }
}

pub open spec fn renderer_property_text(property: AnimatedRendererProperty) -> Seq<char> {
    match property {
        AnimatedRendererProperty::Enabled => "enabled"@,
        AnimatedRendererProperty::BlendShape { name } => "shape "@ + quoted(name@),
        AnimatedRendererProperty::Material { slot } => "material "@ + decimal(slot as nat),
        AnimatedRendererProperty::MaterialProperty { name } => "material property "@ + quoted(name@),
        AnimatedRendererProperty::Serialized { name } => "field "@ + quoted(name@),
    }
}

pub open spec fn component_property_text(property: AnimatedComponentProperty) -> Seq<char> {
    match property {
        AnimatedComponentProperty::Enabled => "enabled"@,
        AnimatedComponentProperty::Serialized { name } => "field "@ + quoted(name@),
    }
}

/// How a script writer would name a target: the object path between backticks and the property,
/// with the component type for a component.
pub open spec fn description(target: AnimatedTarget<Declared>) -> Seq<char> {
    match target {
        AnimatedTarget::AnimatorSelf(animator) => match animator.property {
            AnimatedAnimatorProperty::ParameterFloatValue { name } => "animator parameter "@ + quoted(name.value@),
        },
        AnimatedTarget::GameObject(object) => quoted(object.path.value@) + " "@ + game_object_property_text(
            object.property,
        ),
        AnimatedTarget::Renderer(renderer) => quoted(renderer.path.value@) + " "@ + renderer_property_text(
            renderer.property,
        ),
        AnimatedTarget::Component(component) => quoted(component.path.value@) + " "@
            + component.component_type.value@ + " "@ + component_property_text(component.property),
    }
}

/// The descriptions joined by a comma and a space.
pub open spec fn joined(descriptions: Seq<Seq<char>>) -> Seq<char>
    decreases descriptions.len(),
{
    if descriptions.len() == 0 {
        Seq::empty()
    } else if descriptions.len() == 1 {
        descriptions[0]
    } else {
        joined(descriptions.drop_last()) + ", "@ + descriptions.last()
    }
}

fn push_quoted(text: &mut String, name: &str)
    ensures
        final(text)@ == old(text)@ + quoted(name@),
{
    text.append("`");
    text.append(name);
    text.append("`");
    assert(text@ =~= old(text)@ + quoted(name@));
}

/// Names a target the way a script writer would recognize it.
pub fn describe(target: &AnimatedTarget<Declared>) -> (text: String)
    ensures
        text@ == description(*target),
{
    let mut text = String::new();
    match target {
        AnimatedTarget::AnimatorSelf(animator) => match &animator.property {
            AnimatedAnimatorProperty::ParameterFloatValue { name } => {
                text.append("animator parameter ");
                push_quoted(&mut text, name.value.as_str());
            },
        },
        AnimatedTarget::GameObject(object) => {
            push_quoted(&mut text, object.path.value.as_str());
            text.append(" ");
            match object.property {
                AnimatedGameObjectProperty::Active => text.append("active"),
                AnimatedGameObjectProperty::TransformPosition => text.append("position"),
                AnimatedGameObjectProperty::TransformRotationQuaternion
                | AnimatedGameObjectProperty::TransformRotationEuler => text.append("rotation"),
                AnimatedGameObjectProperty::TransformScale => text.append("scale"),
            }
        },
        AnimatedTarget::Renderer(renderer) => {
            push_quoted(&mut text, renderer.path.value.as_str());
            text.append(" ");
            match &renderer.property {
                AnimatedRendererProperty::Enabled => text.append("enabled"),
                AnimatedRendererProperty::BlendShape { name } => {
                    text.append("shape ");
                    push_quoted(&mut text, name.as_str());
                },
                AnimatedRendererProperty::Material { slot } => {
                    text.append("material ");
                    push_decimal(&mut text, *slot as u64);
                },
                AnimatedRendererProperty::MaterialProperty { name } => {
                    text.append("material property ");
                    push_quoted(&mut text, name.as_str());
                },
                AnimatedRendererProperty::Serialized { name } => {
                    text.append("field ");
                    push_quoted(&mut text, name.as_str());
                },
            }
        },
        AnimatedTarget::Component(component) => {
            push_quoted(&mut text, component.path.value.as_str());
            text.append(" ");
            text.append(component.component_type.value.as_str());
            text.append(" ");
            match &component.property {
                AnimatedComponentProperty::Enabled => text.append("enabled"),
                AnimatedComponentProperty::Serialized { name } => {
                    text.append("field ");
                    push_quoted(&mut text, name.as_str());
                },
            }
        },
    }
    assert(text@ =~= description(*target));
    text
}

/// Names every target, separated by a comma and a space.
pub fn describe_all(targets: &[AnimatedTarget<Declared>]) -> (text: String)
    ensures
        text@ == joined(targets@.map_values(|target: AnimatedTarget<Declared>| description(target))),
{
    let ghost describe_one = |target: AnimatedTarget<Declared>| description(target);
    let mut text = String::new();
    let mut i: usize = 0;
    while i < targets.len()
        invariant
            i <= targets@.len(),
            describe_one == (|target: AnimatedTarget<Declared>| description(target)),
            text@ == joined(targets@.take(i as int).map_values(describe_one)),
        decreases targets@.len() - i,
    {
        let ghost before = targets@.take(i as int).map_values(describe_one);
        let ghost after = targets@.take(i + 1).map_values(describe_one);
        assert(after.drop_last() =~= before);
        assert(after.last() == description(targets@[i as int]));
        if i > 0 {
            text.append(", ");
        }
        let description = describe(&targets[i]);
        text.append(description.as_str());
        assert(text@ =~= joined(after));
        i = i + 1;
    }
    assert(targets@.take(targets@.len() as int) =~= targets@);
    text
}

} // verus!
