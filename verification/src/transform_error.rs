//! What the transform reports when it cannot accept a declaration.
use vstd::prelude::*;
use vstd::string::*;

use crate::resolution::SourceLocation;
use crate::text::{decimal, push_decimal};
use crate::value::AnimatedValueType;

verus! {

/// One thing the transform could not accept, and where in the script it was written.
#[derive(Debug, Clone, PartialEq)]
pub struct TransformError {
    pub at: Option<SourceLocation>,
    pub kind: TransformErrorKind,
}

/// Why the transform rejected part of a declaration.
#[derive(Debug, Clone, PartialEq)]
pub enum TransformErrorKind {
    DuplicateParameter { name: String },
    ParameterCollidesWithProvided { name: String },
    DuplicateProvidedGroup { group: String },
    UnknownParameter { name: String },
    ParameterTypeMismatch { name: String, expected: AnimatedValueType, found: AnimatedValueType },
    GeneratedParameterCollision { name: String },
    DuplicateLayer { name: String },
    UnknownLayer { name: String },
    LayerKindMismatch { name: String, expected: &'static str, found: &'static str },
    DuplicateOption { layer: String, option: String },
    UnknownOption { layer: String, option: String },
    OptionsNeedDefault { layer: String, targets: String },
    ToggleNeedsBothSides { layer: String, target: String },
    NoKeyframes { layer: String },
    /// Two keyframes of a puppet layer stand at one time, given as the host renders it.
    DuplicateKeyframe { layer: String, time: String },
    KeyframeTypeMismatch { layer: String, target: String, first: AnimatedValueType, second: AnimatedValueType },
    OverlappingBlendTargets { layer: String, target: String },
    DuplicateState { layer: String, state: String },
    UnknownState { layer: String, state: String },
    UnsupportedCondition { condition: &'static str, parameter: String, value_type: AnimatedValueType },
    ValueTypeMismatch { expected: AnimatedValueType, found: AnimatedValueType },
    NestedPlayback { option: &'static str },
    InvalidAxis,
    MenuTooLarge { name: String, count: usize, capacity: usize },
}

impl TransformError {
    /// An error with no location.
    pub fn new(kind: TransformErrorKind) -> (error: TransformError)
        ensures
            error == (TransformError { at: None, kind }),
    {
        TransformError { at: None, kind }
    }

    /// An error written at `at`.
    pub fn at(kind: TransformErrorKind, at: Option<SourceLocation>) -> (error: TransformError)
        ensures
            error == (TransformError { at, kind }),
    {
        TransformError { at, kind }
    }

    /// Fills the location in when the error has none, so an error inside a layer points at the
    /// layer at least.
    pub fn or_at(self, at: Option<&SourceLocation>) -> (error: TransformError)
        ensures
            error.kind == self.kind,
            error.at == match self.at {
                Some(own) => Some(own),
                None => match at {
                    Some(fallback) => Some(*fallback),
                    None => None,
                },
            },
    {
        let mut error = self;
        if error.at.is_none() {
            error.at = match at {
                Some(fallback) => Some(fallback.duplicate()),
                None => None,
            };
        }
        error
    }
}

/// How a value type is named in messages.
pub open spec fn value_type_text(value_type: AnimatedValueType) -> Seq<char> {
    match value_type {
        AnimatedValueType::Float => "Float"@,
        AnimatedValueType::Int => "Int"@,
        AnimatedValueType::Bool => "Bool"@,
        AnimatedValueType::Vector2 => "Vector2"@,
        AnimatedValueType::Vector3 => "Vector3"@,
        AnimatedValueType::Vector4 => "Vector4"@,
        AnimatedValueType::Quaternion => "Quaternion"@,
        AnimatedValueType::Color => "Color"@,
        AnimatedValueType::ObjectReference => "ObjectReference"@,
    }
}

fn value_type_name(value_type: AnimatedValueType) -> (name: &'static str)
    ensures
        name@ == value_type_text(value_type),
{
    match value_type {
        AnimatedValueType::Float => "Float",
        AnimatedValueType::Int => "Int",
        AnimatedValueType::Bool => "Bool",
        AnimatedValueType::Vector2 => "Vector2",
        AnimatedValueType::Vector3 => "Vector3",
        AnimatedValueType::Vector4 => "Vector4",
        AnimatedValueType::Quaternion => "Quaternion",
        AnimatedValueType::Color => "Color",
        AnimatedValueType::ObjectReference => "ObjectReference",
    }
}

/// The sentence that explains an error of this kind to a script writer.
pub open spec fn kind_message(kind: TransformErrorKind) -> Seq<char> {
    match kind {
        TransformErrorKind::DuplicateParameter { name } => "parameter `"@ + name@ + "` is declared more than once"@,
        TransformErrorKind::ParameterCollidesWithProvided { name } => "parameter `"@ + name@ + "` collides with a provided parameter of the same name"@,
        TransformErrorKind::DuplicateProvidedGroup { group } => "provided parameters `"@ + group@ + "` are declared more than once"@,
        TransformErrorKind::UnknownParameter { name } => "parameter `"@ + name@ + "` is not declared"@,
        TransformErrorKind::ParameterTypeMismatch { name, expected, found } => "parameter `"@ + name@ + "` is "@ + value_type_text(found) + ", but "@ + value_type_text(expected) + " is needed here"@,
        TransformErrorKind::GeneratedParameterCollision { name } => "the transform needs parameter `"@ + name@ + "` for itself, but the script declares it"@,
        TransformErrorKind::DuplicateLayer { name } => "layer `"@ + name@ + "` is declared more than once"@,
        TransformErrorKind::UnknownLayer { name } => "layer `"@ + name@ + "` is not declared"@,
        TransformErrorKind::LayerKindMismatch { name, expected, found } => "layer `"@ + name@ + "` is a "@ + found@ + " layer, but a "@ + expected@ + " layer is needed here"@,
        TransformErrorKind::DuplicateOption { layer, option } => "option `"@ + option@ + "` of `"@ + layer@ + "` is declared more than once"@,
        TransformErrorKind::UnknownOption { layer, option } => "layer `"@ + layer@ + "` has no option `"@ + option@ + "`"@,
        TransformErrorKind::OptionsNeedDefault { layer, targets } => "the options of `"@ + layer@ + "` animate "@ + targets@ + ", which cannot be zeroed and must be written in the default"@,
        TransformErrorKind::ToggleNeedsBothSides { layer, target } => "the toggle list of `"@ + layer@ + "` animates "@ + target@ + ", which cannot be zeroed for the disabled side"@,
        TransformErrorKind::NoKeyframes { layer } => "puppet layer `"@ + layer@ + "` has no keyframes"@,
        TransformErrorKind::DuplicateKeyframe { layer, time } => "puppet layer `"@ + layer@ + "` places two keyframes at "@ + time@,
        TransformErrorKind::KeyframeTypeMismatch { layer, target, first, second } => "the keyframes of `"@ + layer@ + "` write "@ + target@ + " as both "@ + value_type_text(first) + " and "@ + value_type_text(second),
        TransformErrorKind::OverlappingBlendTargets { layer, target } => "children of blend layer `"@ + layer@ + "` both animate "@ + target@ + ", and children sum instead of overriding"@,
        TransformErrorKind::DuplicateState { layer, state } => "state `"@ + state@ + "` of `"@ + layer@ + "` is declared more than once"@,
        TransformErrorKind::UnknownState { layer, state } => "layer `"@ + layer@ + "` has no state `"@ + state@ + "`"@,
        TransformErrorKind::UnsupportedCondition { condition, parameter, value_type } => "`"@ + condition@ + "` cannot be applied to parameter `"@ + parameter@ + "` of type "@ + value_type_text(value_type),
        TransformErrorKind::ValueTypeMismatch { expected, found } => "a "@ + value_type_text(expected) + " value is needed here, but a "@ + value_type_text(found) + " value was written"@,
        TransformErrorKind::NestedPlayback { option } => "`"@ + option@ + "` can only be set on the motion of a state, not on a field of a blend tree"@,
        TransformErrorKind::InvalidAxis => "an axis takes a parameter name or `da.drive_puppet(layer)` without a value"@,
        TransformErrorKind::MenuTooLarge { name, count, capacity } => "menu `"@ + name@ + "` holds "@ + decimal(count as nat) + " controls, but a menu can hold "@ + decimal(capacity as nat) + " at most"@,
    }
}

/// An error as a script writer reads it: the chunk and line it was written at, when known, then
/// the sentence for its kind.
pub open spec fn error_message(error: TransformError) -> Seq<char> {
    match error.at {
        Some(at) => at.chunk@ + ":"@ + decimal(at.line as nat) + ": "@ + kind_message(error.kind),
        None => kind_message(error.kind),
    }
}

/// Every error the transform found. The transform keeps going after an error so that one run
/// reports them all.
#[derive(Debug, Clone, PartialEq)]
pub struct TransformErrors(pub Vec<TransformError>);

/// The messages, one per line.
pub open spec fn lines(messages: Seq<Seq<char>>) -> Seq<char>
    decreases messages.len(),
{
    if messages.len() == 0 {
        Seq::empty()
    } else if messages.len() == 1 {
        messages[0]
    } else {
        lines(messages.drop_last()) + "\n"@ + messages.last()
    }
}

impl TransformError {
    /// The error as a script writer reads it.
    pub fn message(&self) -> (text: String)
        ensures
            text@ == error_message(*self),
    {
        let mut text = String::new();
        match &self.at {
            Some(at) => {
                text.append(at.chunk.as_str());
                text.append(":");
                push_decimal(&mut text, at.line as u64);
                text.append(": ");
            },
            None => {},
        }
        let kind = self.kind.message();
        text.append(kind.as_str());
        assert(text@ =~= error_message(*self));
        text
    }
}

impl TransformErrors {
    /// Every error as a script writer reads it, one per line.
    pub fn message(&self) -> (text: String)
        ensures
            text@ == lines(self.0@.map_values(|error: TransformError| error_message(error))),
    {
        let ghost explain = |error: TransformError| error_message(error);
        let mut text = String::new();
        let mut i: usize = 0;
        while i < self.0.len()
            invariant
                i <= self.0@.len(),
                explain == (|error: TransformError| error_message(error)),
                text@ == lines(self.0@.take(i as int).map_values(explain)),
            decreases self.0@.len() - i,
        {
            let ghost before = self.0@.take(i as int).map_values(explain);
            let ghost after = self.0@.take(i + 1).map_values(explain);
            assert(after.drop_last() =~= before);
            assert(after.last() == error_message(self.0@[i as int]));
            if i > 0 {
                text.append("\n");
            }
            let line = self.0[i].message();
            text.append(line.as_str());
            assert(text@ =~= lines(after));
            i = i + 1;
        }
        assert(self.0@.take(self.0@.len() as int) =~= self.0@);
        text
    }
}

impl TransformErrorKind {
    /// The sentence that explains this error to a script writer.
    pub fn message(&self) -> (text: String)
        ensures
            text@ == kind_message(*self),
    {
        let mut text = String::new();
        match self {
            TransformErrorKind::DuplicateParameter { name } => {
                text.append("parameter `");
                text.append(name.as_str());
                text.append("` is declared more than once");
            },
            TransformErrorKind::ParameterCollidesWithProvided { name } => {
                text.append("parameter `");
                text.append(name.as_str());
                text.append("` collides with a provided parameter of the same name");
            },
            TransformErrorKind::DuplicateProvidedGroup { group } => {
                text.append("provided parameters `");
                text.append(group.as_str());
                text.append("` are declared more than once");
            },
            TransformErrorKind::UnknownParameter { name } => {
                text.append("parameter `");
                text.append(name.as_str());
                text.append("` is not declared");
            },
            TransformErrorKind::ParameterTypeMismatch { name, expected, found } => {
                text.append("parameter `");
                text.append(name.as_str());
                text.append("` is ");
                text.append(value_type_name(*found));
                text.append(", but ");
                text.append(value_type_name(*expected));
                text.append(" is needed here");
            },
            TransformErrorKind::GeneratedParameterCollision { name } => {
                text.append("the transform needs parameter `");
                text.append(name.as_str());
                text.append("` for itself, but the script declares it");
            },
            TransformErrorKind::DuplicateLayer { name } => {
                text.append("layer `");
                text.append(name.as_str());
                text.append("` is declared more than once");
            },
            TransformErrorKind::UnknownLayer { name } => {
                text.append("layer `");
                text.append(name.as_str());
                text.append("` is not declared");
            },
            TransformErrorKind::LayerKindMismatch { name, expected, found } => {
                text.append("layer `");
                text.append(name.as_str());
                text.append("` is a ");
                text.append(found);
                text.append(" layer, but a ");
                text.append(expected);
                text.append(" layer is needed here");
            },
            TransformErrorKind::DuplicateOption { layer, option } => {
                text.append("option `");
                text.append(option.as_str());
                text.append("` of `");
                text.append(layer.as_str());
                text.append("` is declared more than once");
            },
            TransformErrorKind::UnknownOption { layer, option } => {
                text.append("layer `");
                text.append(layer.as_str());
                text.append("` has no option `");
                text.append(option.as_str());
                text.append("`");
            },
            TransformErrorKind::OptionsNeedDefault { layer, targets } => {
                text.append("the options of `");
                text.append(layer.as_str());
                text.append("` animate ");
                text.append(targets.as_str());
                text.append(", which cannot be zeroed and must be written in the default");
            },
            TransformErrorKind::ToggleNeedsBothSides { layer, target } => {
                text.append("the toggle list of `");
                text.append(layer.as_str());
                text.append("` animates ");
                text.append(target.as_str());
                text.append(", which cannot be zeroed for the disabled side");
            },
            TransformErrorKind::NoKeyframes { layer } => {
                text.append("puppet layer `");
                text.append(layer.as_str());
                text.append("` has no keyframes");
            },
            TransformErrorKind::DuplicateKeyframe { layer, time } => {
                text.append("puppet layer `");
                text.append(layer.as_str());
                text.append("` places two keyframes at ");
                text.append(time.as_str());
            },
            TransformErrorKind::KeyframeTypeMismatch { layer, target, first, second } => {
                text.append("the keyframes of `");
                text.append(layer.as_str());
                text.append("` write ");
                text.append(target.as_str());
                text.append(" as both ");
                text.append(value_type_name(*first));
                text.append(" and ");
                text.append(value_type_name(*second));
            },
            TransformErrorKind::OverlappingBlendTargets { layer, target } => {
                text.append("children of blend layer `");
                text.append(layer.as_str());
                text.append("` both animate ");
                text.append(target.as_str());
                text.append(", and children sum instead of overriding");
            },
            TransformErrorKind::DuplicateState { layer, state } => {
                text.append("state `");
                text.append(state.as_str());
                text.append("` of `");
                text.append(layer.as_str());
                text.append("` is declared more than once");
            },
            TransformErrorKind::UnknownState { layer, state } => {
                text.append("layer `");
                text.append(layer.as_str());
                text.append("` has no state `");
                text.append(state.as_str());
                text.append("`");
            },
            TransformErrorKind::UnsupportedCondition { condition, parameter, value_type } => {
                text.append("`");
                text.append(condition);
                text.append("` cannot be applied to parameter `");
                text.append(parameter.as_str());
                text.append("` of type ");
                text.append(value_type_name(*value_type));
            },
            TransformErrorKind::ValueTypeMismatch { expected, found } => {
                text.append("a ");
                text.append(value_type_name(*expected));
                text.append(" value is needed here, but a ");
                text.append(value_type_name(*found));
                text.append(" value was written");
            },
            TransformErrorKind::NestedPlayback { option } => {
                text.append("`");
                text.append(option);
                text.append("` can only be set on the motion of a state, not on a field of a blend tree");
            },
            TransformErrorKind::InvalidAxis => {
                text.append("an axis takes a parameter name or `da.drive_puppet(layer)` without a value");
            },
            TransformErrorKind::MenuTooLarge { name, count, capacity } => {
                text.append("menu `");
                text.append(name.as_str());
                text.append("` holds ");
                push_decimal(&mut text, *count as u64);
                text.append(" controls, but a menu can hold ");
                push_decimal(&mut text, *capacity as u64);
                text.append(" at most");
            },
        }
        assert(text@ =~= kind_message(*self));
        text
    }
}

impl TransformErrorKind {
    /// This error, written at `at`.
    pub fn at(self, at: Option<SourceLocation>) -> (error: TransformError)
        ensures
            error == (TransformError { at, kind: self }),
    {
        TransformError::at(self, at)
    }
}

impl From<TransformErrorKind> for TransformError {
    fn from(kind: TransformErrorKind) -> (error: TransformError) {
        TransformError::new(kind)
    }
}

impl vstd::std_specs::convert::FromSpecImpl<TransformErrorKind> for TransformError {
    open spec fn obeys_from_spec() -> bool {
        true
    }

    open spec fn from_spec(kind: TransformErrorKind) -> TransformError {
        TransformError { at: None, kind }
    }
}

} // verus!
