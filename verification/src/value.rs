//! Kinds of values a Unity animator handles, and the small classifications built on them.
use vstd::prelude::*;

verus! {

/// Types of values that can be animated within a Unity Animator.
#[derive(Debug, Clone, Copy, PartialEq, Eq, Structural, PartialOrd, Ord, Hash)]
pub enum AnimatedValueType {
    Float,
    Int,
    Bool,
    Vector2,
    Vector3,
    Vector4,
    Quaternion,
    Color,
    ObjectReference,
}

impl AnimatedValueType {
    /// Whether values of this type can be blended between two keyframes.
    pub open spec fn spec_is_interpolable(self) -> bool {
        !(self is Int || self is Bool || self is ObjectReference)
    }

    pub fn is_interpolable(&self) -> (interpolable: bool)
        ensures
            interpolable == self.spec_is_interpolable(),
    {
        match self {
            AnimatedValueType::Int | AnimatedValueType::Bool | AnimatedValueType::ObjectReference => false,
            _ => true,
        }
    }

    /// Whether a value of this type can be written where `target` is expected: a value of the
    /// same type always, a bool where an int or a float is expected, and an int where a float or a
    /// bool is expected (as whether it is nonzero). A float is never read as an int or a bool.
    pub open spec fn spec_casts_to(self, target: AnimatedValueType) -> bool {
        ||| self == target
        ||| self is Bool && (target is Int || target is Float)
        ||| self is Int && (target is Float || target is Bool)
    }

    pub fn casts_to(&self, target: AnimatedValueType) -> (castable: bool)
        ensures
            castable == self.spec_casts_to(target),
    {
        if *self == target {
            return true;
        }
        match (*self, target) {
            (AnimatedValueType::Bool, AnimatedValueType::Int) => true,
            (AnimatedValueType::Bool, AnimatedValueType::Float) => true,
            (AnimatedValueType::Int, AnimatedValueType::Float) => true,
            (AnimatedValueType::Int, AnimatedValueType::Bool) => true,
            _ => false,
        }
    }
}

/// Type of an animator parameter.
#[derive(Debug, Clone, Copy, PartialEq, Eq, PartialOrd, Ord, Hash)]
pub enum AnimatorParameterType {
    Bool,
    Int,
    Float,
}

impl AnimatorParameterType {
    /// The animator parameter type that holds values of `value_type`, if there is one.
    pub open spec fn spec_of(value_type: AnimatedValueType) -> Option<AnimatorParameterType> {
        match value_type {
            AnimatedValueType::Bool => Some(AnimatorParameterType::Bool),
            AnimatedValueType::Int => Some(AnimatorParameterType::Int),
            AnimatedValueType::Float => Some(AnimatorParameterType::Float),
            _ => None,
        }
    }

    pub open spec fn spec_animated_value_type(self) -> AnimatedValueType {
        match self {
            AnimatorParameterType::Bool => AnimatedValueType::Bool,
            AnimatorParameterType::Int => AnimatedValueType::Int,
            AnimatorParameterType::Float => AnimatedValueType::Float,
        }
    }

    pub fn of(value_type: AnimatedValueType) -> (parameter_type: Option<AnimatorParameterType>)
        ensures
            parameter_type == Self::spec_of(value_type),
    {
        match value_type {
            AnimatedValueType::Bool => Some(AnimatorParameterType::Bool),
            AnimatedValueType::Int => Some(AnimatorParameterType::Int),
            AnimatedValueType::Float => Some(AnimatorParameterType::Float),
            _ => None,
        }
    }

    pub fn animated_value_type(&self) -> (value_type: AnimatedValueType)
        ensures
            value_type == self.spec_animated_value_type(),
    {
        match self {
            AnimatorParameterType::Bool => AnimatedValueType::Bool,
            AnimatorParameterType::Int => AnimatedValueType::Int,
            AnimatorParameterType::Float => AnimatedValueType::Float,
        }
    }
}

/// A parameter type and the value type it holds name each other: `of` undoes `animated_value_type`,
/// and every value type that has a parameter type is the one that parameter type holds.
pub proof fn law_parameter_type_round_trip(parameter_type: AnimatorParameterType, value_type: AnimatedValueType)
    ensures
        AnimatorParameterType::spec_of(parameter_type.spec_animated_value_type()) == Some(parameter_type),
        AnimatorParameterType::spec_of(value_type) matches Some(found) ==> found.spec_animated_value_type()
            == value_type,
{
}

/// How a blend tree places its fields.
#[derive(Debug, Clone, Copy, PartialEq, Eq, PartialOrd, Ord, Hash)]
pub enum BlendTreeType {
    Linear,
    Simple2d,
    Freeform2d,
    Cartesian2d,
}

impl BlendTreeType {
    /// Whether this type blends by two parameters.
    pub open spec fn spec_is_two_dimensional(self) -> bool {
        !(self is Linear)
    }

    pub fn is_two_dimensional(&self) -> (two_dimensional: bool)
        ensures
            two_dimensional == self.spec_is_two_dimensional(),
    {
        match self {
            BlendTreeType::Linear => false,
            _ => true,
        }
    }
}

/// How a generated controller is applied to the playable layer it is bound for.
#[derive(Debug, Clone, Copy, Default, PartialEq, Eq, PartialOrd, Ord, Hash)]
pub enum MergeMode {
    /// The layers are appended to what the playable layer already has.
    #[default]
    Append,
    /// The controller replaces the playable layer as a whole.
    Replace,
}

/// What the object paths written in a controller are relative to.
#[derive(Debug, Clone, Copy, Default, PartialEq, Eq, PartialOrd, Ord, Hash)]
pub enum PathMode {
    /// Paths start at the avatar root.
    #[default]
    Absolute,
    /// Paths start at a root the client supplies.
    Relative,
}

} // verus!
