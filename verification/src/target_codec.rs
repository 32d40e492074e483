//! Compiled animation targets on the wire: a tag for the kind of target, then its fields in
//! order. Object paths and component types are indices into their tables, and a parameter is its
//! name, read back against the parameters in scope.
use vstd::prelude::*;

use crate::avatar_codec::{ComponentPropertyView, RendererPropertyView};
use crate::bytes::{le_bytes, lemma_byte_bound_values, lemma_le_round_trip};
use crate::external::{decode_extern, extern_parse};
use crate::reference_checks::{unknown, ParameterTypes};
use crate::resolution::Resolved;
use crate::target::{
    AnimatedAnimatorProperty, AnimatedAnimatorTarget, AnimatedComponentProperty, AnimatedComponentTarget,
    AnimatedGameObjectProperty, AnimatedGameObjectTarget, AnimatedRendererProperty, AnimatedRendererTarget,
    AnimatedTarget, Compiled,
};
use crate::value::AnimatedValueType;
use crate::wire::{parse_string, parse_u8, Decode, DecodeError, Encode, EncodeError, Reader, WireFormat, Writer};

verus! {

/// A compiled target as a value: names as text, table references as indices.
pub enum TargetView {
    /// A float parameter, by name, with the type it resolved to.
    AnimatorSelf(Seq<char>, AnimatedValueType),
    GameObject(u32, AnimatedGameObjectProperty),
    Renderer(u32, Seq<char>, RendererPropertyView),
    Component(u32, u32, ComponentPropertyView, AnimatedValueType),
}

impl DeepView for AnimatedTarget<Compiled> {
    type V = TargetView;

    open spec fn deep_view(&self) -> TargetView {
        match self {
            AnimatedTarget::AnimatorSelf(animator) => match animator.property {
                AnimatedAnimatorProperty::ParameterFloatValue { name } => TargetView::AnimatorSelf(
                    name.value@,
                    name.context,
                ),
            },
            AnimatedTarget::GameObject(object) => TargetView::GameObject(object.path.spec_index(), object.property),
            AnimatedTarget::Renderer(renderer) => TargetView::Renderer(
                renderer.path.spec_index(),
                renderer.renderer_type@,
                renderer.property.deep_view(),
            ),
            AnimatedTarget::Component(component) => TargetView::Component(
                component.path.spec_index(),
                component.component_type.spec_index(),
                component.property.deep_view(),
                component.value_type,
            ),
        }
    }
}

/// `first` followed by `second`, or the first of them that fails.
pub open spec fn then(first: Result<Seq<u8>, EncodeError>, second: Result<Seq<u8>, EncodeError>) -> Result<
    Seq<u8>,
    EncodeError,
> {
    match first {
        Err(e) => Err(e),
        Ok(a) => match second {
            Err(e) => Err(e),
            Ok(b) => Ok(a + b),
        },
    }
}

/// The bytes of a compiled target.
pub open spec fn target_encoding(target: TargetView) -> Result<Seq<u8>, EncodeError> {
    match target {
        TargetView::AnimatorSelf(name, _) => then(Ok(seq![0u8, 0u8]), <String as Encode>::encoding(name)),
        TargetView::GameObject(path, property) => Ok(
            seq![1u8] + le_bytes(path as nat, 4) + <AnimatedGameObjectProperty as Encode>::encoding(
                property,
            )->Ok_0,
        ),
        TargetView::Renderer(path, renderer_type, property) => then(
            then(Ok(seq![2u8] + le_bytes(path as nat, 4)), <String as Encode>::encoding(renderer_type)),
            <AnimatedRendererProperty as Encode>::encoding(property),
        ),
        TargetView::Component(path, component_type, property, value_type) => then(
            then(
                Ok(seq![3u8] + le_bytes(path as nat, 4) + le_bytes(component_type as nat, 4)),
                <AnimatedComponentProperty as Encode>::encoding(property),
            ),
            <AnimatedValueType as Encode>::encoding(value_type),
        ),
    }
}

/// Compiled targets are written as their tag and fields.
impl Encode for AnimatedTarget<Compiled> {
    open spec fn encoding(value: TargetView) -> Result<Seq<u8>, EncodeError> {
        target_encoding(value)
    }

    fn encode(&self, writer: &mut Writer) -> (result: Result<(), EncodeError>) {
        let ghost before = writer@;
        match self {
            AnimatedTarget::AnimatorSelf(animator) => match &animator.property {
                AnimatedAnimatorProperty::ParameterFloatValue { name } => {
                    writer.u8(0);
                    writer.u8(0);
                    name.encode(writer)?;
                },
            },
            AnimatedTarget::GameObject(object) => {
                writer.u8(1);
                object.path.encode(writer)?;
                object.property.encode(writer)?;
            },
            AnimatedTarget::Renderer(renderer) => {
                writer.u8(2);
                renderer.path.encode(writer)?;
                renderer.renderer_type.encode(writer)?;
                renderer.property.encode(writer)?;
            },
            AnimatedTarget::Component(component) => {
                writer.u8(3);
                component.path.encode(writer)?;
                component.component_type.encode(writer)?;
                component.property.encode(writer)?;
                component.value_type.encode(writer)?;
            },
        }
        assert(writer@ =~= before + Self::encoding(self.deep_view())->Ok_0);
        Ok(())
    }
}

/// Why reading a target failed: an error of the format, or a parameter name that is not in scope.
pub enum TargetFailure {
    Decode(DecodeError),
    UnknownParameter(Seq<char>),
}

/// `parsed`, or its error as a failure of the format.
pub open spec fn lift<T>(parsed: Result<(T, int), DecodeError>) -> Result<(T, int), TargetFailure> {
    match parsed {
        Ok(found) => Ok(found),
        Err(e) => Err(TargetFailure::Decode(e)),
    }
}

/// What reading a compiled target at `pos` yields, with `scope` the parameters in scope and
/// `paths` and `components` entries in the tables of object paths and component types.
pub open spec fn target_parse(
    data: Seq<u8>,
    pos: int,
    scope: Map<Seq<char>, AnimatedValueType>,
    paths: usize,
    components: usize,
) -> Result<(TargetView, int), TargetFailure> {
    match lift(parse_u8(data, pos)) {
        Err(e) => Err(e),
        Ok((tag, start)) => if tag == 0 {
            match lift(parse_u8(data, start)) {
                Err(e) => Err(e),
                Ok((property, next)) => if property != 0 {
                    Err(
                        TargetFailure::Decode(
                            DecodeError::InvalidDiscriminator { of_type: "AnimatedAnimatorProperty", value: property },
                        ),
                    )
                } else {
                    match lift(parse_string(data, next)) {
                        Err(e) => Err(e),
                        Ok((name, end)) => if scope.contains_key(name) {
                            Ok((TargetView::AnimatorSelf(name, scope[name]), end))
                        } else {
                            Err(TargetFailure::UnknownParameter(name))
                        },
                    }
                },
            }
        } else if tag == 1 {
            match lift(extern_parse(data, start, "object path", paths)) {
                Err(e) => Err(e),
                Ok((path, next)) => match lift(<AnimatedGameObjectProperty as Decode>::parse(data, next)) {
                    Err(e) => Err(e),
                    Ok((property, end)) => Ok((TargetView::GameObject(path, property), end)),
                },
            }
        } else if tag == 2 {
            match lift(extern_parse(data, start, "object path", paths)) {
                Err(e) => Err(e),
                Ok((path, next)) => match lift(parse_string(data, next)) {
                    Err(e) => Err(e),
                    Ok((renderer_type, after)) => match lift(<AnimatedRendererProperty as Decode>::parse(data, after)) {
                        Err(e) => Err(e),
                        Ok((property, end)) => Ok((TargetView::Renderer(path, renderer_type, property), end)),
                    },
                },
            }
        } else if tag == 3 {
            match lift(extern_parse(data, start, "object path", paths)) {
                Err(e) => Err(e),
                Ok((path, next)) => match lift(extern_parse(data, next, "component type", components)) {
                    Err(e) => Err(e),
                    Ok((component_type, after)) => match lift(
                        <AnimatedComponentProperty as Decode>::parse(data, after),
                    ) {
                        Err(e) => Err(e),
                        Ok((property, later)) => match lift(<AnimatedValueType as Decode>::parse(data, later)) {
                            Err(e) => Err(e),
                            Ok((value_type, end)) => Ok(
                                (TargetView::Component(path, component_type, property, value_type), end),
                            ),
                        },
                    },
                },
            }
        } else {
            Err(TargetFailure::Decode(DecodeError::InvalidDiscriminator { of_type: "AnimatedTarget", value: tag }))
        },
    }
}

/// How reading a target ends, given what the bytes parse to.
pub open spec fn target_decoded(
    parsed: Result<(TargetView, int), TargetFailure>,
    result: Result<AnimatedTarget<Compiled>, DecodeError>,
    end: int,
) -> bool {
    match parsed {
        Ok((view, next)) => result matches Ok(target) && target.deep_view() == view && end == next,
        Err(TargetFailure::Decode(e)) => result == Err::<AnimatedTarget<Compiled>, DecodeError>(e),
        Err(TargetFailure::UnknownParameter(name)) => result matches Err(DecodeError::UnknownParameter(found))
            && found@ == name,
    }
}

/// Reads a compiled target against the parameters in `scope` and tables of `paths` object paths
/// and `components` component types.
pub fn decode_target(reader: &mut Reader<'_>, scope: &ParameterTypes, paths: usize, components: usize) -> (result:
    Result<AnimatedTarget<Compiled>, DecodeError>)
    requires
        scope.wf(),
    ensures
        final(reader).data() == old(reader).data(),
        target_decoded(
            target_parse(old(reader).data(), old(reader).pos(), scope.types(), paths, components),
            result,
            final(reader).pos(),
        ),
{
    let tag = reader.u8()?;
    if tag == 0 {
        let property = reader.u8()?;
        if property != 0 {
            return Err(unknown("AnimatedAnimatorProperty", property));
        }
        let name = reader.string()?;
        return match scope.get(name.as_str()) {
            Some(value_type) => Ok(
                AnimatedTarget::AnimatorSelf(
                    AnimatedAnimatorTarget {
                        property: AnimatedAnimatorProperty::ParameterFloatValue { name: Resolved::new(name, value_type) },
                    },
                ),
            ),
            None => Err(DecodeError::UnknownParameter(name)),
        };
    }
    if tag == 1 {
        let path = decode_extern(reader, "object path", paths)?;
        let property = AnimatedGameObjectProperty::decode(reader)?;
        return Ok(AnimatedTarget::GameObject(AnimatedGameObjectTarget { path, property }));
    }
    if tag == 2 {
        let path = decode_extern(reader, "object path", paths)?;
        let renderer_type = reader.string()?;
        let property = AnimatedRendererProperty::decode(reader)?;
        return Ok(AnimatedTarget::Renderer(AnimatedRendererTarget { path, renderer_type, property }));
    }
    if tag == 3 {
        let path = decode_extern(reader, "object path", paths)?;
        let component_type = decode_extern(reader, "component type", components)?;
        let property = AnimatedComponentProperty::decode(reader)?;
        let value_type = AnimatedValueType::decode(reader)?;
        return Ok(AnimatedTarget::Component(AnimatedComponentTarget { path, component_type, property, value_type }));
    }
    Err(unknown("AnimatedTarget", tag))
}

proof fn lemma_split(data: Seq<u8>, pos: int, first: Seq<u8>, second: Seq<u8>)
    requires
        0 <= pos,
        pos + first.len() + second.len() <= data.len(),
        data.subrange(pos, pos + first.len() + second.len()) == first + second,
    ensures
        data.subrange(pos, pos + first.len()) == first,
        data.subrange(pos + first.len(), pos + first.len() + second.len()) == second,
{
    let whole = data.subrange(pos, pos + first.len() + second.len());
    assert(data.subrange(pos, pos + first.len()) =~= whole.subrange(0, first.len() as int));
    assert(whole.subrange(0, first.len() as int) =~= first);
    assert(data.subrange(pos + first.len(), pos + first.len() + second.len()) =~= whole.subrange(
        first.len() as int,
        (first.len() + second.len()) as int,
    ));
    assert(whole.subrange(first.len() as int, (first.len() + second.len()) as int) =~= second);
}

proof fn lemma_byte_at(data: Seq<u8>, pos: int, byte: u8, rest: Seq<u8>)
    requires
        0 <= pos,
        pos + 1 + rest.len() <= data.len(),
        data.subrange(pos, pos + 1 + rest.len()) == seq![byte] + rest,
    ensures
        parse_u8(data, pos) == Ok::<(u8, int), DecodeError>((byte, pos + 1)),
        data.subrange(pos + 1, pos + 1 + rest.len()) == rest,
{
    lemma_split(data, pos, seq![byte], rest);
    assert(data.subrange(pos, pos + 1)[0] == data[pos]);
}

proof fn lemma_animator_round_trip(
    name: Seq<char>,
    value_type: AnimatedValueType,
    scope: Map<Seq<char>, AnimatedValueType>,
    paths: usize,
    components: usize,
    data: Seq<u8>,
    pos: int,
)
    requires
        <String as Encode>::encoding(name) is Ok,
        scope.contains_key(name) && scope[name] == value_type,
        0 <= pos,
        pos + target_encoding(TargetView::AnimatorSelf(name, value_type))->Ok_0.len() <= data.len(),
        data.subrange(pos, pos + target_encoding(TargetView::AnimatorSelf(name, value_type))->Ok_0.len())
            == target_encoding(TargetView::AnimatorSelf(name, value_type))->Ok_0,
    ensures
        target_parse(data, pos, scope, paths, components) == Ok::<(TargetView, int), TargetFailure>(
            (
                TargetView::AnimatorSelf(name, value_type),
                pos + target_encoding(TargetView::AnimatorSelf(name, value_type))->Ok_0.len(),
            ),
        ),
{
    let text = <String as Encode>::encoding(name)->Ok_0;
    assert(seq![0u8, 0u8] + text =~= seq![0u8] + (seq![0u8] + text));
    lemma_byte_at(data, pos, 0, seq![0u8] + text);
    lemma_byte_at(data, pos + 1, 0, text);
    <String as WireFormat>::lemma_round_trip(name, data, pos + 2);
}

proof fn lemma_game_object_round_trip(
    path: u32,
    property: AnimatedGameObjectProperty,
    scope: Map<Seq<char>, AnimatedValueType>,
    paths: usize,
    components: usize,
    data: Seq<u8>,
    pos: int,
)
    requires
        (path as int) < paths,
        0 <= pos,
        pos + target_encoding(TargetView::GameObject(path, property))->Ok_0.len() <= data.len(),
        data.subrange(pos, pos + target_encoding(TargetView::GameObject(path, property))->Ok_0.len())
            == target_encoding(TargetView::GameObject(path, property))->Ok_0,
    ensures
        target_parse(data, pos, scope, paths, components) == Ok::<(TargetView, int), TargetFailure>(
            (
                TargetView::GameObject(path, property),
                pos + target_encoding(TargetView::GameObject(path, property))->Ok_0.len(),
            ),
        ),
{
    lemma_byte_bound_values();
    let index = le_bytes(path as nat, 4);
    let tail = <AnimatedGameObjectProperty as Encode>::encoding(property)->Ok_0;
    lemma_le_round_trip(path as nat, 4);
    assert(seq![1u8] + index + tail =~= seq![1u8] + (index + tail));
    lemma_byte_at(data, pos, 1, index + tail);
    lemma_split(data, pos + 1, index, tail);
    <u32 as WireFormat>::lemma_round_trip(path, data, pos + 1);
    <AnimatedGameObjectProperty as WireFormat>::lemma_round_trip(property, data, pos + 5);
}

proof fn lemma_renderer_round_trip(
    path: u32,
    renderer_type: Seq<char>,
    property: RendererPropertyView,
    scope: Map<Seq<char>, AnimatedValueType>,
    paths: usize,
    components: usize,
    data: Seq<u8>,
    pos: int,
)
    requires
        target_encoding(TargetView::Renderer(path, renderer_type, property)) is Ok,
        (path as int) < paths,
        0 <= pos,
        pos + target_encoding(TargetView::Renderer(path, renderer_type, property))->Ok_0.len() <= data.len(),
        data.subrange(pos, pos + target_encoding(TargetView::Renderer(path, renderer_type, property))->Ok_0.len())
            == target_encoding(TargetView::Renderer(path, renderer_type, property))->Ok_0,
    ensures
        target_parse(data, pos, scope, paths, components) == Ok::<(TargetView, int), TargetFailure>(
            (
                TargetView::Renderer(path, renderer_type, property),
                pos + target_encoding(TargetView::Renderer(path, renderer_type, property))->Ok_0.len(),
            ),
        ),
{
    lemma_byte_bound_values();
    let index = le_bytes(path as nat, 4);
    let text = <String as Encode>::encoding(renderer_type)->Ok_0;
    let tail = <AnimatedRendererProperty as Encode>::encoding(property)->Ok_0;
    lemma_le_round_trip(path as nat, 4);
    assert(seq![2u8] + index + text + tail =~= seq![2u8] + (index + (text + tail)));
    lemma_byte_at(data, pos, 2, index + (text + tail));
    lemma_split(data, pos + 1, index, text + tail);
    lemma_split(data, pos + 5, text, tail);
    <u32 as WireFormat>::lemma_round_trip(path, data, pos + 1);
    <String as WireFormat>::lemma_round_trip(renderer_type, data, pos + 5);
    <AnimatedRendererProperty as WireFormat>::lemma_round_trip(property, data, pos + 5 + text.len());
}

proof fn lemma_component_round_trip(
    path: u32,
    component_type: u32,
    property: ComponentPropertyView,
    value_type: AnimatedValueType,
    scope: Map<Seq<char>, AnimatedValueType>,
    paths: usize,
    components: usize,
    data: Seq<u8>,
    pos: int,
)
    requires
        target_encoding(TargetView::Component(path, component_type, property, value_type)) is Ok,
        (path as int) < paths,
        (component_type as int) < components,
        0 <= pos,
        pos + target_encoding(TargetView::Component(path, component_type, property, value_type))->Ok_0.len()
            <= data.len(),
        data.subrange(
            pos,
            pos + target_encoding(TargetView::Component(path, component_type, property, value_type))->Ok_0.len(),
        ) == target_encoding(TargetView::Component(path, component_type, property, value_type))->Ok_0,
    ensures
        target_parse(data, pos, scope, paths, components) == Ok::<(TargetView, int), TargetFailure>(
            (
                TargetView::Component(path, component_type, property, value_type),
                pos + target_encoding(TargetView::Component(path, component_type, property, value_type))->Ok_0.len(),
            ),
        ),
{
    lemma_byte_bound_values();
    let index = le_bytes(path as nat, 4);
    let kind = le_bytes(component_type as nat, 4);
    let tail = <AnimatedComponentProperty as Encode>::encoding(property)->Ok_0;
    let last = <AnimatedValueType as Encode>::encoding(value_type)->Ok_0;
    lemma_le_round_trip(path as nat, 4);
    lemma_le_round_trip(component_type as nat, 4);
    assert(seq![3u8] + index + kind + tail + last =~= seq![3u8] + (index + (kind + (tail + last))));
    lemma_byte_at(data, pos, 3, index + (kind + (tail + last)));
    lemma_split(data, pos + 1, index, kind + (tail + last));
    lemma_split(data, pos + 5, kind, tail + last);
    lemma_split(data, pos + 9, tail, last);
    <u32 as WireFormat>::lemma_round_trip(path, data, pos + 1);
    <u32 as WireFormat>::lemma_round_trip(component_type, data, pos + 5);
    <AnimatedComponentProperty as WireFormat>::lemma_round_trip(property, data, pos + 9);
    <AnimatedValueType as WireFormat>::lemma_round_trip(value_type, data, pos + 9 + tail.len());
}

/// Reading a compiled target where its encoding stands gives it back, provided its table
/// references point into tables of `paths` object paths and `components` component types and
/// its parameter is in `scope` with the type it was resolved to.
pub proof fn law_target_round_trip(
    target: TargetView,
    scope: Map<Seq<char>, AnimatedValueType>,
    paths: usize,
    components: usize,
    data: Seq<u8>,
    pos: int,
)
    requires
        target_encoding(target) is Ok,
        target matches TargetView::AnimatorSelf(name, value_type) ==> scope.contains_key(name) && scope[name]
            == value_type,
        target matches TargetView::GameObject(path, _) ==> (path as int) < paths,
        target matches TargetView::Renderer(path, _, _) ==> (path as int) < paths,
        target matches TargetView::Component(path, component_type, _, _) ==> (path as int) < paths && (
        component_type as int) < components,
        0 <= pos,
        pos + target_encoding(target)->Ok_0.len() <= data.len(),
        data.subrange(pos, pos + target_encoding(target)->Ok_0.len()) == target_encoding(target)->Ok_0,
    ensures
        target_parse(data, pos, scope, paths, components) == Ok::<(TargetView, int), TargetFailure>(
            (target, pos + target_encoding(target)->Ok_0.len()),
        ),
{
    match target {
        TargetView::AnimatorSelf(name, value_type) => {
            lemma_animator_round_trip(name, value_type, scope, paths, components, data, pos);
        },
        TargetView::GameObject(path, property) => {
            lemma_game_object_round_trip(path, property, scope, paths, components, data, pos);
        },
        TargetView::Renderer(path, renderer_type, property) => {
            lemma_renderer_round_trip(path, renderer_type, property, scope, paths, components, data, pos);
        },
        TargetView::Component(path, component_type, property, value_type) => {
            lemma_component_round_trip(path, component_type, property, value_type, scope, paths, components, data, pos);
        },
    }
}
} // verus!
