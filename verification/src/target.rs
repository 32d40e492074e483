//! What an animation entry animates, in both phases of compilation.
use vstd::prelude::*;

use crate::external::Extern;
use crate::resolution::{Resolved, Unresolved};
use crate::unity_external::{Asset, AssetLocator, ComponentType, ObjectPath};
use crate::value::AnimatedValueType;

verus! {

/// Selects how references inside shared data structures are represented.
pub trait Phase {
    /// Reference to an animator parameter.
    type ParameterRef: core::fmt::Debug + Clone + PartialEq + Eq;
    /// Path to a GameObject relative to the avatar root.
    type ObjectPath: core::fmt::Debug + Clone + PartialEq + Eq;
    /// Fully qualified Unity component type name.
    type ComponentType: core::fmt::Debug + Clone + PartialEq + Eq;
    /// Reference to a Unity asset such as a Material or a Mesh.
    type ObjectRef: core::fmt::Debug + Clone + PartialEq + Eq;
}

/// The phase right after the script has been evaluated: every reference is a bare name.
#[derive(Debug, Clone, Copy, PartialEq, Eq, PartialOrd, Ord, Hash)]
pub struct Declared;

impl Phase for Declared {
    type ParameterRef = Unresolved<String>;
    type ObjectPath = Unresolved<String>;
    type ComponentType = Unresolved<String>;
    type ObjectRef = Unresolved<AssetLocator>;
}

/// The phase after the transform: parameters are resolved and Unity references interned.
#[derive(Debug, Clone, Copy, PartialEq, Eq, PartialOrd, Ord, Hash)]
pub struct Compiled;

impl Phase for Compiled {
    type ParameterRef = Resolved<String, AnimatedValueType>;
    type ObjectPath = Extern<ObjectPath>;
    type ComponentType = Extern<ComponentType>;
    type ObjectRef = Extern<Asset>;
}

/// Something an animation can drive, which may know the type of value it takes.
pub trait Target {
    spec fn spec_type_hint(&self) -> Option<AnimatedValueType>;

    /// The type of value this target takes, if it is known from the target alone.
    fn type_hint(&self) -> (hint: Option<AnimatedValueType>)
        ensures
            hint == self.spec_type_hint(),
    ;
}

/// Target of an animated property.
#[derive(Debug, Clone, PartialEq, Eq)]
pub enum AnimatedTarget<Ph: Phase> {
    /// The Animator itself, mainly for animator-driven parameters.
    AnimatorSelf(AnimatedAnimatorTarget<Ph>),
    /// A GameObject.
    GameObject(AnimatedGameObjectTarget<Ph>),
    /// A Renderer, especially a MeshRenderer or SkinnedMeshRenderer.
    Renderer(AnimatedRendererTarget<Ph>),
    /// Any other component.
    Component(AnimatedComponentTarget<Ph>),
}

/// A property of the Animator component.
#[derive(Debug, Clone, PartialEq, Eq)]
pub struct AnimatedAnimatorTarget<Ph: Phase> {
    pub property: AnimatedAnimatorProperty<Ph>,
}

#[derive(Debug, Clone, PartialEq, Eq)]
pub enum AnimatedAnimatorProperty<Ph: Phase> {
    /// Value of a float parameter.
    ParameterFloatValue { name: Ph::ParameterRef },
}

/// A property of a GameObject.
#[derive(Debug, Clone, PartialEq, Eq)]
pub struct AnimatedGameObjectTarget<Ph: Phase> {
    pub path: Ph::ObjectPath,
    pub property: AnimatedGameObjectProperty,
}

#[derive(Debug, Clone, Copy, PartialEq, Eq, PartialOrd, Ord, Hash)]
pub enum AnimatedGameObjectProperty {
    Active,
    TransformPosition,
    TransformRotationQuaternion,
    TransformRotationEuler,
    TransformScale,
}

/// A property of a Renderer.
#[derive(Debug, Clone, PartialEq, Eq)]
pub struct AnimatedRendererTarget<Ph: Phase> {
    pub path: Ph::ObjectPath,
    pub renderer_type: String,
    pub property: AnimatedRendererProperty,
}

#[derive(Debug, Clone, PartialEq, Eq, PartialOrd, Ord, Hash)]
pub enum AnimatedRendererProperty {
    Enabled,
    BlendShape { name: String },
    Material { slot: u32 },
    MaterialProperty { name: String },
    Serialized { name: String },
}

/// A property of any other Unity component.
#[derive(Debug, Clone, PartialEq, Eq)]
pub struct AnimatedComponentTarget<Ph: Phase> {
    pub path: Ph::ObjectPath,
    pub component_type: Ph::ComponentType,
    pub property: AnimatedComponentProperty,
    pub value_type: AnimatedValueType,
}

#[derive(Debug, Clone, PartialEq, Eq, PartialOrd, Ord, Hash)]
pub enum AnimatedComponentProperty {
    Enabled,
    Serialized { name: String },
}

impl<Ph: Phase> Target for AnimatedAnimatorTarget<Ph> {
    open spec fn spec_type_hint(&self) -> Option<AnimatedValueType> {
        Some(AnimatedValueType::Float)
    }

    fn type_hint(&self) -> (hint: Option<AnimatedValueType>) {
        match self.property {
            AnimatedAnimatorProperty::ParameterFloatValue { .. } => Some(AnimatedValueType::Float),
        }
    }
}

impl<Ph: Phase> Target for AnimatedGameObjectTarget<Ph> {
    open spec fn spec_type_hint(&self) -> Option<AnimatedValueType> {
        match self.property {
            AnimatedGameObjectProperty::Active => Some(AnimatedValueType::Bool),
            AnimatedGameObjectProperty::TransformPosition => Some(AnimatedValueType::Vector3),
            AnimatedGameObjectProperty::TransformRotationQuaternion => Some(AnimatedValueType::Quaternion),
            AnimatedGameObjectProperty::TransformRotationEuler => Some(AnimatedValueType::Vector3),
            AnimatedGameObjectProperty::TransformScale => Some(AnimatedValueType::Vector3),
        }
    }

    fn type_hint(&self) -> (hint: Option<AnimatedValueType>) {
        match self.property {
            AnimatedGameObjectProperty::Active => Some(AnimatedValueType::Bool),
            AnimatedGameObjectProperty::TransformPosition => Some(AnimatedValueType::Vector3),
            AnimatedGameObjectProperty::TransformRotationQuaternion => Some(AnimatedValueType::Quaternion),
            AnimatedGameObjectProperty::TransformRotationEuler => Some(AnimatedValueType::Vector3),
            AnimatedGameObjectProperty::TransformScale => Some(AnimatedValueType::Vector3),
        }
    }
}

impl<Ph: Phase> Target for AnimatedRendererTarget<Ph> {
    open spec fn spec_type_hint(&self) -> Option<AnimatedValueType> {
        match self.property {
            AnimatedRendererProperty::Enabled => Some(AnimatedValueType::Bool),
            AnimatedRendererProperty::BlendShape { .. } => Some(AnimatedValueType::Float),
            AnimatedRendererProperty::Material { .. } => Some(AnimatedValueType::ObjectReference),
            AnimatedRendererProperty::MaterialProperty { .. } => None,
            AnimatedRendererProperty::Serialized { .. } => None,
        }
    }

    fn type_hint(&self) -> (hint: Option<AnimatedValueType>) {
        match self.property {
            AnimatedRendererProperty::Enabled => Some(AnimatedValueType::Bool),
            AnimatedRendererProperty::BlendShape { .. } => Some(AnimatedValueType::Float),
            AnimatedRendererProperty::Material { .. } => Some(AnimatedValueType::ObjectReference),
            AnimatedRendererProperty::MaterialProperty { .. } | AnimatedRendererProperty::Serialized { .. } => None,
        }
    }
}

impl<Ph: Phase> Target for AnimatedComponentTarget<Ph> {
    open spec fn spec_type_hint(&self) -> Option<AnimatedValueType> {
        match self.property {
            AnimatedComponentProperty::Enabled => Some(AnimatedValueType::Bool),
            AnimatedComponentProperty::Serialized { .. } => None,
        }
    }

    fn type_hint(&self) -> (hint: Option<AnimatedValueType>) {
        match self.property {
            AnimatedComponentProperty::Enabled => Some(AnimatedValueType::Bool),
            AnimatedComponentProperty::Serialized { .. } => None,
        }
    }
}

impl<Ph: Phase> Target for AnimatedTarget<Ph> {
    open spec fn spec_type_hint(&self) -> Option<AnimatedValueType> {
        match self {
            AnimatedTarget::AnimatorSelf(target) => target.spec_type_hint(),
            AnimatedTarget::GameObject(target) => target.spec_type_hint(),
            AnimatedTarget::Renderer(target) => target.spec_type_hint(),
            AnimatedTarget::Component(target) => target.spec_type_hint(),
        }
    }

    fn type_hint(&self) -> (hint: Option<AnimatedValueType>) {
        match self {
            AnimatedTarget::AnimatorSelf(target) => target.type_hint(),
            AnimatedTarget::GameObject(target) => target.type_hint(),
            AnimatedTarget::Renderer(target) => target.type_hint(),
            AnimatedTarget::Component(target) => target.type_hint(),
        }
    }
}

} // verus!
