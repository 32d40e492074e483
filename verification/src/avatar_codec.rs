//! The parts of the avatar payload that are plain values: the tags of the enumerations, how an
//! asset is located, the animated properties, and the tables of external references.
use vstd::prelude::*;

use crate::bytes::{le_bytes, lemma_chunk};
use crate::controller::{MenuAxis, TransitionSource, TransitionTarget};
use crate::diagnostics::{lemma_pair_round_trip, pair_encoding, pair_parse};
use crate::external::{
    decode_extern_table, ExternKind, table_failed, table_parse, values_distinct, values_of, ExternEntry, ExternTable, TableFailure,
};
use crate::raw_pass::lemma_distinct_no_repeat;
use crate::reference_checks::{check_state_index, unknown};
use crate::resolution::Resolved;
use crate::target::{AnimatedComponentProperty, AnimatedGameObjectProperty, AnimatedRendererProperty};
use crate::unity_external::{Asset, AssetLocator, ComponentType, Externals, LocatorView, ObjectPath};
use crate::value::{AnimatedValueType, BlendTreeType, MergeMode, PathMode};
use crate::wire::{parse_bool, parse_u8, parse_u32, Decode, DecodeError, Encode, EncodeError, Reader, WireFormat, Writer};

verus! {

impl DeepView for MergeMode {
    type V = MergeMode;

    open spec fn deep_view(&self) -> MergeMode {
        *self
    }
}

/// The tag each variant of `MergeMode` is written as.
pub open spec fn merge_mode_tag(value: MergeMode) -> u8 {
    match value {
        MergeMode::Append => 0,
        MergeMode::Replace => 1,
    }
}

/// The variant a tag stands for, if any.
pub open spec fn merge_mode_of_tag(tag: u8) -> Option<MergeMode> {
    if tag == 0 {
        Some(MergeMode::Append)
    } else if tag == 1 {
        Some(MergeMode::Replace)
    } else {
        None
    }
}

impl Encode for MergeMode {
    open spec fn encoding(value: MergeMode) -> Result<Seq<u8>, EncodeError> {
        Ok(seq![merge_mode_tag(value)])
    }

    fn encode(&self, writer: &mut Writer) -> (result: Result<(), EncodeError>) {
        writer.u8(
            match self {
                MergeMode::Append => 0,
                MergeMode::Replace => 1,
            },
        );
        assert(writer@ =~= old(writer)@ + seq![merge_mode_tag(*self)]);
        Ok(())
    }
}

impl Decode for MergeMode {
    open spec fn parse(data: Seq<u8>, pos: int) -> Result<(MergeMode, int), DecodeError> {
        match parse_u8(data, pos) {
            Ok((tag, end)) => match merge_mode_of_tag(tag) {
                Some(value) => Ok((value, end)),
                None => Err(DecodeError::InvalidDiscriminator { of_type: "MergeMode", value: tag }),
            },
            Err(e) => Err(e),
        }
    }

    fn decode(reader: &mut Reader<'_>) -> (result: Result<MergeMode, DecodeError>) {
        match reader.u8()? {
            0 => Ok(MergeMode::Append),
            1 => Ok(MergeMode::Replace),
            value => Err(unknown("MergeMode", value)),
        }
    }
}

impl WireFormat for MergeMode {
    proof fn lemma_round_trip(value: MergeMode, data: Seq<u8>, pos: int) {
        assert(data.subrange(pos, pos + 1)[0] == data[pos]);
    }
}

impl DeepView for PathMode {
    type V = PathMode;

    open spec fn deep_view(&self) -> PathMode {
        *self
    }
}

/// The tag each variant of `PathMode` is written as.
pub open spec fn path_mode_tag(value: PathMode) -> u8 {
    match value {
        PathMode::Absolute => 0,
        PathMode::Relative => 1,
    }
}

/// The variant a tag stands for, if any.
pub open spec fn path_mode_of_tag(tag: u8) -> Option<PathMode> {
    if tag == 0 {
        Some(PathMode::Absolute)
    } else if tag == 1 {
        Some(PathMode::Relative)
    } else {
        None
    }
}

impl Encode for PathMode {
    open spec fn encoding(value: PathMode) -> Result<Seq<u8>, EncodeError> {
        Ok(seq![path_mode_tag(value)])
    }

    fn encode(&self, writer: &mut Writer) -> (result: Result<(), EncodeError>) {
        writer.u8(
            match self {
                PathMode::Absolute => 0,
                PathMode::Relative => 1,
            },
        );
        assert(writer@ =~= old(writer)@ + seq![path_mode_tag(*self)]);
        Ok(())
    }
}

impl Decode for PathMode {
    open spec fn parse(data: Seq<u8>, pos: int) -> Result<(PathMode, int), DecodeError> {
        match parse_u8(data, pos) {
            Ok((tag, end)) => match path_mode_of_tag(tag) {
                Some(value) => Ok((value, end)),
                None => Err(DecodeError::InvalidDiscriminator { of_type: "PathMode", value: tag }),
            },
            Err(e) => Err(e),
        }
    }

    fn decode(reader: &mut Reader<'_>) -> (result: Result<PathMode, DecodeError>) {
        match reader.u8()? {
            0 => Ok(PathMode::Absolute),
            1 => Ok(PathMode::Relative),
            value => Err(unknown("PathMode", value)),
        }
    }
}

impl WireFormat for PathMode {
    proof fn lemma_round_trip(value: PathMode, data: Seq<u8>, pos: int) {
        assert(data.subrange(pos, pos + 1)[0] == data[pos]);
    }
}

impl DeepView for BlendTreeType {
    type V = BlendTreeType;

    open spec fn deep_view(&self) -> BlendTreeType {
        *self
    }
}

/// The tag each variant of `BlendTreeType` is written as.
pub open spec fn blend_tree_type_tag(value: BlendTreeType) -> u8 {
    match value {
        BlendTreeType::Linear => 0,
        BlendTreeType::Simple2d => 1,
        BlendTreeType::Freeform2d => 2,
        BlendTreeType::Cartesian2d => 3,
    }
}

/// The variant a tag stands for, if any.
pub open spec fn blend_tree_type_of_tag(tag: u8) -> Option<BlendTreeType> {
    if tag == 0 {
        Some(BlendTreeType::Linear)
    } else if tag == 1 {
        Some(BlendTreeType::Simple2d)
    } else if tag == 2 {
        Some(BlendTreeType::Freeform2d)
    } else if tag == 3 {
        Some(BlendTreeType::Cartesian2d)
    } else {
        None
    }
}

impl Encode for BlendTreeType {
    open spec fn encoding(value: BlendTreeType) -> Result<Seq<u8>, EncodeError> {
        Ok(seq![blend_tree_type_tag(value)])
    }

    fn encode(&self, writer: &mut Writer) -> (result: Result<(), EncodeError>) {
        writer.u8(
            match self {
                BlendTreeType::Linear => 0,
                BlendTreeType::Simple2d => 1,
                BlendTreeType::Freeform2d => 2,
                BlendTreeType::Cartesian2d => 3,
            },
        );
        assert(writer@ =~= old(writer)@ + seq![blend_tree_type_tag(*self)]);
        Ok(())
    }
}

impl Decode for BlendTreeType {
    open spec fn parse(data: Seq<u8>, pos: int) -> Result<(BlendTreeType, int), DecodeError> {
        match parse_u8(data, pos) {
            Ok((tag, end)) => match blend_tree_type_of_tag(tag) {
                Some(value) => Ok((value, end)),
                None => Err(DecodeError::InvalidDiscriminator { of_type: "BlendTreeType", value: tag }),
            },
            Err(e) => Err(e),
        }
    }

    fn decode(reader: &mut Reader<'_>) -> (result: Result<BlendTreeType, DecodeError>) {
        match reader.u8()? {
            0 => Ok(BlendTreeType::Linear),
            1 => Ok(BlendTreeType::Simple2d),
            2 => Ok(BlendTreeType::Freeform2d),
            3 => Ok(BlendTreeType::Cartesian2d),
            value => Err(unknown("BlendTreeType", value)),
        }
    }
}

impl WireFormat for BlendTreeType {
    proof fn lemma_round_trip(value: BlendTreeType, data: Seq<u8>, pos: int) {
        assert(data.subrange(pos, pos + 1)[0] == data[pos]);
    }
}

impl DeepView for AnimatedValueType {
    type V = AnimatedValueType;

    open spec fn deep_view(&self) -> AnimatedValueType {
        *self
    }
}

/// The tag each variant of `AnimatedValueType` is written as.
pub open spec fn animated_value_type_tag(value: AnimatedValueType) -> u8 {
    match value {
        AnimatedValueType::Float => 0,
        AnimatedValueType::Int => 1,
        AnimatedValueType::Bool => 2,
        AnimatedValueType::Vector2 => 3,
        AnimatedValueType::Vector3 => 4,
        AnimatedValueType::Vector4 => 5,
        AnimatedValueType::Quaternion => 6,
        AnimatedValueType::Color => 7,
        AnimatedValueType::ObjectReference => 8,
    }
}

/// The variant a tag stands for, if any.
pub open spec fn animated_value_type_of_tag(tag: u8) -> Option<AnimatedValueType> {
    if tag == 0 {
        Some(AnimatedValueType::Float)
    } else if tag == 1 {
        Some(AnimatedValueType::Int)
    } else if tag == 2 {
        Some(AnimatedValueType::Bool)
    } else if tag == 3 {
        Some(AnimatedValueType::Vector2)
    } else if tag == 4 {
        Some(AnimatedValueType::Vector3)
    } else if tag == 5 {
        Some(AnimatedValueType::Vector4)
    } else if tag == 6 {
        Some(AnimatedValueType::Quaternion)
    } else if tag == 7 {
        Some(AnimatedValueType::Color)
    } else if tag == 8 {
        Some(AnimatedValueType::ObjectReference)
    } else {
        None
    }
}

impl Encode for AnimatedValueType {
    open spec fn encoding(value: AnimatedValueType) -> Result<Seq<u8>, EncodeError> {
        Ok(seq![animated_value_type_tag(value)])
    }

    fn encode(&self, writer: &mut Writer) -> (result: Result<(), EncodeError>) {
        writer.u8(
            match self {
                AnimatedValueType::Float => 0,
                AnimatedValueType::Int => 1,
                AnimatedValueType::Bool => 2,
                AnimatedValueType::Vector2 => 3,
                AnimatedValueType::Vector3 => 4,
                AnimatedValueType::Vector4 => 5,
                AnimatedValueType::Quaternion => 6,
                AnimatedValueType::Color => 7,
                AnimatedValueType::ObjectReference => 8,
            },
        );
        assert(writer@ =~= old(writer)@ + seq![animated_value_type_tag(*self)]);
        Ok(())
    }
}

impl Decode for AnimatedValueType {
    open spec fn parse(data: Seq<u8>, pos: int) -> Result<(AnimatedValueType, int), DecodeError> {
        match parse_u8(data, pos) {
            Ok((tag, end)) => match animated_value_type_of_tag(tag) {
                Some(value) => Ok((value, end)),
                None => Err(DecodeError::InvalidDiscriminator { of_type: "AnimatedValueType", value: tag }),
            },
            Err(e) => Err(e),
        }
    }

    fn decode(reader: &mut Reader<'_>) -> (result: Result<AnimatedValueType, DecodeError>) {
        match reader.u8()? {
            0 => Ok(AnimatedValueType::Float),
            1 => Ok(AnimatedValueType::Int),
            2 => Ok(AnimatedValueType::Bool),
            3 => Ok(AnimatedValueType::Vector2),
            4 => Ok(AnimatedValueType::Vector3),
            5 => Ok(AnimatedValueType::Vector4),
            6 => Ok(AnimatedValueType::Quaternion),
            7 => Ok(AnimatedValueType::Color),
            8 => Ok(AnimatedValueType::ObjectReference),
            value => Err(unknown("AnimatedValueType", value)),
        }
    }
}

impl WireFormat for AnimatedValueType {
    proof fn lemma_round_trip(value: AnimatedValueType, data: Seq<u8>, pos: int) {
        assert(data.subrange(pos, pos + 1)[0] == data[pos]);
    }
}

impl DeepView for AnimatedGameObjectProperty {
    type V = AnimatedGameObjectProperty;

    open spec fn deep_view(&self) -> AnimatedGameObjectProperty {
        *self
    }
}

/// The tag each variant of `AnimatedGameObjectProperty` is written as.
pub open spec fn animated_game_object_property_tag(value: AnimatedGameObjectProperty) -> u8 {
    match value {
        AnimatedGameObjectProperty::Active => 0,
        AnimatedGameObjectProperty::TransformPosition => 1,
        AnimatedGameObjectProperty::TransformRotationQuaternion => 2,
        AnimatedGameObjectProperty::TransformRotationEuler => 3,
        AnimatedGameObjectProperty::TransformScale => 4,
    }
}

/// The variant a tag stands for, if any.
pub open spec fn animated_game_object_property_of_tag(tag: u8) -> Option<AnimatedGameObjectProperty> {
    if tag == 0 {
        Some(AnimatedGameObjectProperty::Active)
    } else if tag == 1 {
        Some(AnimatedGameObjectProperty::TransformPosition)
    } else if tag == 2 {
        Some(AnimatedGameObjectProperty::TransformRotationQuaternion)
    } else if tag == 3 {
        Some(AnimatedGameObjectProperty::TransformRotationEuler)
    } else if tag == 4 {
        Some(AnimatedGameObjectProperty::TransformScale)
    } else {
        None
    }
}

impl Encode for AnimatedGameObjectProperty {
    open spec fn encoding(value: AnimatedGameObjectProperty) -> Result<Seq<u8>, EncodeError> {
        Ok(seq![animated_game_object_property_tag(value)])
    }

    fn encode(&self, writer: &mut Writer) -> (result: Result<(), EncodeError>) {
        writer.u8(
            match self {
                AnimatedGameObjectProperty::Active => 0,
                AnimatedGameObjectProperty::TransformPosition => 1,
                AnimatedGameObjectProperty::TransformRotationQuaternion => 2,
                AnimatedGameObjectProperty::TransformRotationEuler => 3,
                AnimatedGameObjectProperty::TransformScale => 4,
            },
        );
        assert(writer@ =~= old(writer)@ + seq![animated_game_object_property_tag(*self)]);
        Ok(())
    }
}

impl Decode for AnimatedGameObjectProperty {
    open spec fn parse(data: Seq<u8>, pos: int) -> Result<(AnimatedGameObjectProperty, int), DecodeError> {
        match parse_u8(data, pos) {
            Ok((tag, end)) => match animated_game_object_property_of_tag(tag) {
                Some(value) => Ok((value, end)),
                None => Err(DecodeError::InvalidDiscriminator { of_type: "AnimatedGameObjectProperty", value: tag }),
            },
            Err(e) => Err(e),
        }
    }

    fn decode(reader: &mut Reader<'_>) -> (result: Result<AnimatedGameObjectProperty, DecodeError>) {
        match reader.u8()? {
            0 => Ok(AnimatedGameObjectProperty::Active),
            1 => Ok(AnimatedGameObjectProperty::TransformPosition),
            2 => Ok(AnimatedGameObjectProperty::TransformRotationQuaternion),
            3 => Ok(AnimatedGameObjectProperty::TransformRotationEuler),
            4 => Ok(AnimatedGameObjectProperty::TransformScale),
            value => Err(unknown("AnimatedGameObjectProperty", value)),
        }
    }
}

impl WireFormat for AnimatedGameObjectProperty {
    proof fn lemma_round_trip(value: AnimatedGameObjectProperty, data: Seq<u8>, pos: int) {
        assert(data.subrange(pos, pos + 1)[0] == data[pos]);
    }
}

/// A tag byte in front of a payload, or the payload's failure.
pub open spec fn tagged(tag: u8, payload: Result<Seq<u8>, EncodeError>) -> Result<Seq<u8>, EncodeError> {
    match payload {
        Ok(bytes) => Ok(seq![tag] + bytes),
        Err(e) => Err(e),
    }
}

/// Where a tag and its payload stand, the tag is read first and the payload follows it.
proof fn lemma_tagged(tag: u8, payload: Seq<u8>, data: Seq<u8>, pos: int)
    requires
        0 <= pos,
        pos + 1 + payload.len() <= data.len(),
        data.subrange(pos, pos + 1 + payload.len()) == seq![tag] + payload,
    ensures
        parse_u8(data, pos) == Ok::<(u8, int), DecodeError>((tag, pos + 1)),
        data.subrange(pos + 1, pos + 1 + payload.len()) == payload,
{
    assert(data.subrange(pos, pos + 1 + payload.len())[0] == data[pos]);
    assert(data.subrange(pos, pos + 1)[0] == data[pos]);
    assert(data.subrange(pos + 1, pos + 1 + payload.len()) =~= (seq![tag] + payload).subrange(
        1,
        1 + payload.len() as int,
    ));
}

impl Encode for AssetLocator {
    open spec fn encoding(value: LocatorView) -> Result<Seq<u8>, EncodeError> {
        match value {
            LocatorView::Guid(guid) => tagged(0, <String as Encode>::encoding(guid)),
            LocatorView::Path(path) => tagged(1, <String as Encode>::encoding(path)),
            LocatorView::Named { asset_type, name } => tagged(2, pair_encoding::<String, String>(asset_type, name)),
        }
    }

    fn encode(&self, writer: &mut Writer) -> (result: Result<(), EncodeError>) {
        match self {
            AssetLocator::Guid(guid) => {
                writer.u8(0);
                guid.encode(writer)?;
            },
            AssetLocator::Path(path) => {
                writer.u8(1);
                path.encode(writer)?;
            },
            AssetLocator::Named { asset_type, name } => {
                writer.u8(2);
                asset_type.encode(writer)?;
                name.encode(writer)?;
            },
        }
        assert(writer@ =~= old(writer)@ + Self::encoding(self.deep_view())->Ok_0);
        Ok(())
    }
}

impl Decode for AssetLocator {
    open spec fn parse(data: Seq<u8>, pos: int) -> Result<(LocatorView, int), DecodeError> {
        match parse_u8(data, pos) {
            Ok((tag, end)) => if tag == 0 {
                match <String as Decode>::parse(data, end) {
                    Ok((guid, next)) => Ok((LocatorView::Guid(guid), next)),
                    Err(e) => Err(e),
                }
            } else if tag == 1 {
                match <String as Decode>::parse(data, end) {
                    Ok((path, next)) => Ok((LocatorView::Path(path), next)),
                    Err(e) => Err(e),
                }
            } else if tag == 2 {
                match pair_parse::<String, String>(data, end) {
                    Ok(((asset_type, name), next)) => Ok((LocatorView::Named { asset_type, name }, next)),
                    Err(e) => Err(e),
                }
            } else {
                Err(DecodeError::InvalidDiscriminator { of_type: "AssetLocator", value: tag })
            },
            Err(e) => Err(e),
        }
    }

    fn decode(reader: &mut Reader<'_>) -> (result: Result<AssetLocator, DecodeError>) {
        match reader.u8()? {
            0 => {
                let guid: String = reader.decode()?;
                Ok(AssetLocator::Guid(guid))
            },
            1 => {
                let path: String = reader.decode()?;
                Ok(AssetLocator::Path(path))
            },
            2 => {
                let asset_type: String = reader.decode()?;
                let name: String = reader.decode()?;
                Ok(AssetLocator::Named { asset_type, name })
            },
            value => Err(unknown("AssetLocator", value)),
        }
    }
}

impl WireFormat for AssetLocator {
    proof fn lemma_round_trip(value: LocatorView, data: Seq<u8>, pos: int) {
        match value {
            LocatorView::Guid(guid) => {
                lemma_tagged(0, <String as Encode>::encoding(guid)->Ok_0, data, pos);
                <String as WireFormat>::lemma_round_trip(guid, data, pos + 1);
            },
            LocatorView::Path(path) => {
                lemma_tagged(1, <String as Encode>::encoding(path)->Ok_0, data, pos);
                <String as WireFormat>::lemma_round_trip(path, data, pos + 1);
            },
            LocatorView::Named { asset_type, name } => {
                lemma_tagged(2, pair_encoding::<String, String>(asset_type, name)->Ok_0, data, pos);
                lemma_pair_round_trip::<String, String>(asset_type, name, data, pos + 1);
            },
        }
    }
}

/// An animated property of a renderer, seen through the values it holds.
pub enum RendererPropertyView {
    Enabled,
    BlendShape(Seq<char>),
    Material(u32),
    MaterialProperty(Seq<char>),
    Serialized(Seq<char>),
}

impl DeepView for AnimatedRendererProperty {
    type V = RendererPropertyView;

    open spec fn deep_view(&self) -> RendererPropertyView {
        match self {
            AnimatedRendererProperty::Enabled => RendererPropertyView::Enabled,
            AnimatedRendererProperty::BlendShape { name } => RendererPropertyView::BlendShape(name@),
            AnimatedRendererProperty::Material { slot } => RendererPropertyView::Material(*slot),
            AnimatedRendererProperty::MaterialProperty { name } => RendererPropertyView::MaterialProperty(name@),
            AnimatedRendererProperty::Serialized { name } => RendererPropertyView::Serialized(name@),
        }
    }
}

impl Encode for AnimatedRendererProperty {
    open spec fn encoding(value: RendererPropertyView) -> Result<Seq<u8>, EncodeError> {
        match value {
            RendererPropertyView::Enabled => Ok(seq![0u8]),
            RendererPropertyView::BlendShape(name) => tagged(1, <String as Encode>::encoding(name)),
            RendererPropertyView::Material(slot) => tagged(2, <u32 as Encode>::encoding(slot)),
            RendererPropertyView::MaterialProperty(name) => tagged(3, <String as Encode>::encoding(name)),
            RendererPropertyView::Serialized(name) => tagged(4, <String as Encode>::encoding(name)),
        }
    }

    fn encode(&self, writer: &mut Writer) -> (result: Result<(), EncodeError>) {
        match self {
            AnimatedRendererProperty::Enabled => writer.u8(0),
            AnimatedRendererProperty::BlendShape { name } => {
                writer.u8(1);
                name.encode(writer)?;
            },
            AnimatedRendererProperty::Material { slot } => {
                writer.u8(2);
                slot.encode(writer)?;
            },
            AnimatedRendererProperty::MaterialProperty { name } => {
                writer.u8(3);
                name.encode(writer)?;
            },
            AnimatedRendererProperty::Serialized { name } => {
                writer.u8(4);
                name.encode(writer)?;
            },
        }
        assert(writer@ =~= old(writer)@ + Self::encoding(self.deep_view())->Ok_0);
        Ok(())
    }
}

impl Decode for AnimatedRendererProperty {
    open spec fn parse(data: Seq<u8>, pos: int) -> Result<(RendererPropertyView, int), DecodeError> {
        match parse_u8(data, pos) {
            Ok((tag, end)) => if tag == 0 {
                Ok((RendererPropertyView::Enabled, end))
            } else if tag == 1 {
                match <String as Decode>::parse(data, end) {
                    Ok((name, next)) => Ok((RendererPropertyView::BlendShape(name), next)),
                    Err(e) => Err(e),
                }
            } else if tag == 2 {
                match parse_u32(data, end) {
                    Ok((slot, next)) => Ok((RendererPropertyView::Material(slot), next)),
                    Err(e) => Err(e),
                }
            } else if tag == 3 {
                match <String as Decode>::parse(data, end) {
                    Ok((name, next)) => Ok((RendererPropertyView::MaterialProperty(name), next)),
                    Err(e) => Err(e),
                }
            } else if tag == 4 {
                match <String as Decode>::parse(data, end) {
                    Ok((name, next)) => Ok((RendererPropertyView::Serialized(name), next)),
                    Err(e) => Err(e),
                }
            } else {
                Err(DecodeError::InvalidDiscriminator { of_type: "AnimatedRendererProperty", value: tag })
            },
            Err(e) => Err(e),
        }
    }

    fn decode(reader: &mut Reader<'_>) -> (result: Result<AnimatedRendererProperty, DecodeError>) {
        match reader.u8()? {
            0 => Ok(AnimatedRendererProperty::Enabled),
            1 => {
                let name: String = reader.decode()?;
                Ok(AnimatedRendererProperty::BlendShape { name })
            },
            2 => {
                let slot = reader.u32()?;
                Ok(AnimatedRendererProperty::Material { slot })
            },
            3 => {
                let name: String = reader.decode()?;
                Ok(AnimatedRendererProperty::MaterialProperty { name })
            },
            4 => {
                let name: String = reader.decode()?;
                Ok(AnimatedRendererProperty::Serialized { name })
            },
            value => Err(unknown("AnimatedRendererProperty", value)),
        }
    }
}

impl WireFormat for AnimatedRendererProperty {
    proof fn lemma_round_trip(value: RendererPropertyView, data: Seq<u8>, pos: int) {
        match value {
            RendererPropertyView::Enabled => {
                assert(data.subrange(pos, pos + 1)[0] == data[pos]);
            },
            RendererPropertyView::BlendShape(name) => {
                lemma_tagged(1, <String as Encode>::encoding(name)->Ok_0, data, pos);
                <String as WireFormat>::lemma_round_trip(name, data, pos + 1);
            },
            RendererPropertyView::Material(slot) => {
                lemma_tagged(2, <u32 as Encode>::encoding(slot)->Ok_0, data, pos);
                <u32 as WireFormat>::lemma_round_trip(slot, data, pos + 1);
            },
            RendererPropertyView::MaterialProperty(name) => {
                lemma_tagged(3, <String as Encode>::encoding(name)->Ok_0, data, pos);
                <String as WireFormat>::lemma_round_trip(name, data, pos + 1);
            },
            RendererPropertyView::Serialized(name) => {
                lemma_tagged(4, <String as Encode>::encoding(name)->Ok_0, data, pos);
                <String as WireFormat>::lemma_round_trip(name, data, pos + 1);
            },
        }
    }
}

/// An animated property of any other component, seen through the values it holds.
pub enum ComponentPropertyView {
    Enabled,
    Serialized(Seq<char>),
}

impl DeepView for AnimatedComponentProperty {
    type V = ComponentPropertyView;

    open spec fn deep_view(&self) -> ComponentPropertyView {
        match self {
            AnimatedComponentProperty::Enabled => ComponentPropertyView::Enabled,
            AnimatedComponentProperty::Serialized { name } => ComponentPropertyView::Serialized(name@),
        }
    }
}

impl Encode for AnimatedComponentProperty {
    open spec fn encoding(value: ComponentPropertyView) -> Result<Seq<u8>, EncodeError> {
        match value {
            ComponentPropertyView::Enabled => Ok(seq![0u8]),
            ComponentPropertyView::Serialized(name) => tagged(1, <String as Encode>::encoding(name)),
        }
    }

    fn encode(&self, writer: &mut Writer) -> (result: Result<(), EncodeError>) {
        match self {
            AnimatedComponentProperty::Enabled => writer.u8(0),
            AnimatedComponentProperty::Serialized { name } => {
                writer.u8(1);
                name.encode(writer)?;
            },
        }
        assert(writer@ =~= old(writer)@ + Self::encoding(self.deep_view())->Ok_0);
        Ok(())
    }
}

impl Decode for AnimatedComponentProperty {
    open spec fn parse(data: Seq<u8>, pos: int) -> Result<(ComponentPropertyView, int), DecodeError> {
        match parse_u8(data, pos) {
            Ok((tag, end)) => if tag == 0 {
                Ok((ComponentPropertyView::Enabled, end))
            } else if tag == 1 {
                match <String as Decode>::parse(data, end) {
                    Ok((name, next)) => Ok((ComponentPropertyView::Serialized(name), next)),
                    Err(e) => Err(e),
                }
            } else {
                Err(DecodeError::InvalidDiscriminator { of_type: "AnimatedComponentProperty", value: tag })
            },
            Err(e) => Err(e),
        }
    }

    fn decode(reader: &mut Reader<'_>) -> (result: Result<AnimatedComponentProperty, DecodeError>) {
        match reader.u8()? {
            0 => Ok(AnimatedComponentProperty::Enabled),
            1 => {
                let name: String = reader.decode()?;
                Ok(AnimatedComponentProperty::Serialized { name })
            },
            value => Err(unknown("AnimatedComponentProperty", value)),
        }
    }
}

impl WireFormat for AnimatedComponentProperty {
    proof fn lemma_round_trip(value: ComponentPropertyView, data: Seq<u8>, pos: int) {
        match value {
            ComponentPropertyView::Enabled => {
                assert(data.subrange(pos, pos + 1)[0] == data[pos]);
            },
            ComponentPropertyView::Serialized(name) => {
                lemma_tagged(1, <String as Encode>::encoding(name)->Ok_0, data, pos);
                <String as WireFormat>::lemma_round_trip(name, data, pos + 1);
            },
        }
    }
}

/// Everything an avatar asks the client for, seen through the values it holds.
pub type ExternalsView = (
    Seq<(Seq<char>, Seq<(Seq<char>, u32)>)>,
    Seq<(Seq<char>, Seq<(Seq<char>, u32)>)>,
    Seq<(LocatorView, Seq<(Seq<char>, u32)>)>,
    bool,
);

impl DeepView for Externals {
    type V = ExternalsView;

    open spec fn deep_view(&self) -> ExternalsView {
        (self.object_paths@, self.component_types@, self.assets@, self.needs_relative_root)
    }
}

/// The references lead the avatar payload: the object paths, the component types and the assets,
/// each as a list of entries, then whether a root for relative paths is needed.
impl Encode for Externals {
    open spec fn encoding(value: ExternalsView) -> Result<Seq<u8>, EncodeError> {
        match <ExternTable<ObjectPath> as Encode>::encoding(value.0) {
            Ok(paths) => match <ExternTable<ComponentType> as Encode>::encoding(value.1) {
                Ok(types) => match <ExternTable<Asset> as Encode>::encoding(value.2) {
                    Ok(assets) => Ok(paths + types + assets + <bool as Encode>::encoding(value.3)->Ok_0),
                    Err(e) => Err(e),
                },
                Err(e) => Err(e),
            },
            Err(e) => Err(e),
        }
    }

    fn encode(&self, writer: &mut Writer) -> (result: Result<(), EncodeError>) {
        self.object_paths.encode(writer)?;
        self.component_types.encode(writer)?;
        self.assets.encode(writer)?;
        self.needs_relative_root.encode(writer)?;
        assert(writer@ =~= old(writer)@ + Self::encoding(self.deep_view())->Ok_0);
        Ok(())
    }
}

impl<C> DeepView for Resolved<String, C> {
    type V = Seq<char>;

    open spec fn deep_view(&self) -> Seq<char> {
        self.value@
    }
}

/// A resolved parameter is written as its name; what was learned while resolving it is not.
impl<C> Encode for Resolved<String, C> {
    open spec fn encoding(value: Seq<char>) -> Result<Seq<u8>, EncodeError> {
        <String as Encode>::encoding(value)
    }

    fn encode(&self, writer: &mut Writer) -> (result: Result<(), EncodeError>) {
        self.value.encode(writer)
    }
}

/// A state index, which the format gives 32 bits.
pub open spec fn state_index_encoding(index: usize) -> Result<Seq<u8>, EncodeError> {
    if index <= u32::MAX {
        Ok(le_bytes(index as nat, 4))
    } else {
        Err(EncodeError::Overflow { what: "state index", value: index })
    }
}

fn encode_state_index(writer: &mut Writer, index: usize) -> (result: Result<(), EncodeError>)
    ensures
        crate::wire::encoded(state_index_encoding(index), result, old(writer)@, final(writer)@),
{
    if index > u32::MAX as usize {
        return Err(EncodeError::Overflow { what: "state index", value: index });
    }
    writer.u32(index as u32);
    Ok(())
}

/// What reading a state index of a layer with `states` states yields.
pub open spec fn state_index_parse(data: Seq<u8>, pos: int, states: usize) -> Result<(usize, int), DecodeError> {
    match parse_u32(data, pos) {
        Ok((index, end)) => if (index as int) < states {
            Ok((index as usize, end))
        } else {
            Err(DecodeError::StateOutOfRange { index, len: states })
        },
        Err(e) => Err(e),
    }
}

impl DeepView for TransitionSource {
    type V = TransitionSource;

    open spec fn deep_view(&self) -> TransitionSource {
        *self
    }
}

impl Encode for TransitionSource {
    open spec fn encoding(value: TransitionSource) -> Result<Seq<u8>, EncodeError> {
        match value {
            TransitionSource::Entry => Ok(seq![0u8]),
            TransitionSource::State(index) => tagged(1, state_index_encoding(index)),
        }
    }

    fn encode(&self, writer: &mut Writer) -> (result: Result<(), EncodeError>) {
        match self {
            TransitionSource::Entry => writer.u8(0),
            TransitionSource::State(index) => {
                writer.u8(1);
                encode_state_index(writer, *index)?;
            },
        }
        assert(writer@ =~= old(writer)@ + Self::encoding(*self)->Ok_0);
        Ok(())
    }
}

/// What reading where a transition starts yields, in a layer with `states` states.
pub open spec fn transition_source_parse(data: Seq<u8>, pos: int, states: usize) -> Result<
    (TransitionSource, int),
    DecodeError,
> {
    match parse_u8(data, pos) {
        Ok((tag, end)) => if tag == 0 {
            Ok((TransitionSource::Entry, end))
        } else if tag == 1 {
            match state_index_parse(data, end, states) {
                Ok((index, next)) => Ok((TransitionSource::State(index), next)),
                Err(e) => Err(e),
            }
        } else {
            Err(DecodeError::InvalidDiscriminator { of_type: "TransitionSource", value: tag })
        },
        Err(e) => Err(e),
    }
}

/// Reads where a transition starts, in a layer with `states` states.
pub fn decode_transition_source(reader: &mut Reader<'_>, states: usize) -> (result: Result<
    TransitionSource,
    DecodeError,
>)
    ensures
        final(reader).data() == old(reader).data(),
        crate::wire::decoded(
            transition_source_parse(old(reader).data(), old(reader).pos(), states),
            result,
            final(reader).pos(),
        ),
{
    match reader.u8()? {
        0 => Ok(TransitionSource::Entry),
        1 => {
            let index = reader.u32()?;
            let index = check_state_index(index, states)?;
            Ok(TransitionSource::State(index))
        },
        value => Err(unknown("TransitionSource", value)),
    }
}

impl DeepView for TransitionTarget {
    type V = TransitionTarget;

    open spec fn deep_view(&self) -> TransitionTarget {
        *self
    }
}

impl Encode for TransitionTarget {
    open spec fn encoding(value: TransitionTarget) -> Result<Seq<u8>, EncodeError> {
        match value {
            TransitionTarget::State(index) => tagged(0, state_index_encoding(index)),
            TransitionTarget::Exit => Ok(seq![1u8]),
        }
    }

    fn encode(&self, writer: &mut Writer) -> (result: Result<(), EncodeError>) {
        match self {
            TransitionTarget::State(index) => {
                writer.u8(0);
                encode_state_index(writer, *index)?;
            },
            TransitionTarget::Exit => writer.u8(1),
        }
        assert(writer@ =~= old(writer)@ + Self::encoding(*self)->Ok_0);
        Ok(())
    }
}

/// What reading where a transition ends yields, in a layer with `states` states.
pub open spec fn transition_target_parse(data: Seq<u8>, pos: int, states: usize) -> Result<
    (TransitionTarget, int),
    DecodeError,
> {
    match parse_u8(data, pos) {
        Ok((tag, end)) => if tag == 0 {
            match state_index_parse(data, end, states) {
                Ok((index, next)) => Ok((TransitionTarget::State(index), next)),
                Err(e) => Err(e),
            }
        } else if tag == 1 {
            Ok((TransitionTarget::Exit, end))
        } else {
            Err(DecodeError::InvalidDiscriminator { of_type: "TransitionTarget", value: tag })
        },
        Err(e) => Err(e),
    }
}

/// Reads where a transition ends, in a layer with `states` states.
pub fn decode_transition_target(reader: &mut Reader<'_>, states: usize) -> (result: Result<
    TransitionTarget,
    DecodeError,
>)
    ensures
        final(reader).data() == old(reader).data(),
        crate::wire::decoded(
            transition_target_parse(old(reader).data(), old(reader).pos(), states),
            result,
            final(reader).pos(),
        ),
{
    match reader.u8()? {
        0 => {
            let index = reader.u32()?;
            let index = check_state_index(index, states)?;
            Ok(TransitionTarget::State(index))
        },
        1 => Ok(TransitionTarget::Exit),
        value => Err(unknown("TransitionTarget", value)),
    }
}

/// Within a layer with more states than the index, a transition's ends read back as written.
pub proof fn law_transitions_round_trip(
    source: TransitionSource,
    target: TransitionTarget,
    states: usize,
    data: Seq<u8>,
    pos: int,
)
    requires
        source matches TransitionSource::State(index) ==> index < states,
        target matches TransitionTarget::State(index) ==> index < states,
        0 <= pos,
    ensures
        <TransitionSource as Encode>::encoding(source) matches Ok(bytes) ==> (pos + bytes.len() <= data.len()
            && data.subrange(pos, pos + bytes.len()) == bytes ==> transition_source_parse(data, pos, states) == Ok::<
            (TransitionSource, int),
            DecodeError,
        >((source, pos + bytes.len()))),
        <TransitionTarget as Encode>::encoding(target) matches Ok(bytes) ==> (pos + bytes.len() <= data.len()
            && data.subrange(pos, pos + bytes.len()) == bytes ==> transition_target_parse(data, pos, states) == Ok::<
            (TransitionTarget, int),
            DecodeError,
        >((target, pos + bytes.len()))),
{
    if let Ok(bytes) = <TransitionSource as Encode>::encoding(source) {
        if pos + bytes.len() <= data.len() && data.subrange(pos, pos + bytes.len()) == bytes {
            match source {
                TransitionSource::Entry => {
                    assert(data.subrange(pos, pos + 1)[0] == data[pos]);
                },
                TransitionSource::State(index) => {
                    lemma_tagged(1, le_bytes(index as nat, 4), data, pos);
                    <u32 as WireFormat>::lemma_round_trip(index as u32, data, pos + 1);
                },
            }
        }
    }
    if let Ok(bytes) = <TransitionTarget as Encode>::encoding(target) {
        if pos + bytes.len() <= data.len() && data.subrange(pos, pos + bytes.len()) == bytes {
            match target {
                TransitionTarget::Exit => {
                    assert(data.subrange(pos, pos + 1)[0] == data[pos]);
                },
                TransitionTarget::State(index) => {
                    lemma_tagged(0, le_bytes(index as nat, 4), data, pos);
                    <u32 as WireFormat>::lemma_round_trip(index as u32, data, pos + 1);
                },
            }
        }
    }
}

impl DeepView for MenuAxis {
    type V = (Seq<char>, Option<Seq<char>>, Option<Seq<char>>);

    open spec fn deep_view(&self) -> (Seq<char>, Option<Seq<char>>, Option<Seq<char>>) {
        (self.parameter.value@, self.positive.deep_view(), self.negative.deep_view())
    }
}

/// An axis is written as the name of its parameter, then the labels of its two ends.
impl Encode for MenuAxis {
    open spec fn encoding(value: (Seq<char>, Option<Seq<char>>, Option<Seq<char>>)) -> Result<Seq<u8>, EncodeError> {
        match <String as Encode>::encoding(value.0) {
            Ok(parameter) => match pair_encoding::<Option<String>, Option<String>>(value.1, value.2) {
                Ok(labels) => Ok(parameter + labels),
                Err(e) => Err(e),
            },
            Err(e) => Err(e),
        }
    }

    fn encode(&self, writer: &mut Writer) -> (result: Result<(), EncodeError>) {
        self.parameter.encode(writer)?;
        self.positive.encode(writer)?;
        self.negative.encode(writer)?;
        assert(writer@ =~= old(writer)@ + Self::encoding(self.deep_view())->Ok_0);
        Ok(())
    }
}

/// What reading the references that lead an avatar at `pos` yields: the tables of object paths,
/// component types and assets, then whether a root for relative paths is needed.
pub open spec fn externals_parse(data: Seq<u8>, pos: int) -> Result<(ExternalsView, int), TableFailure> {
    match table_parse::<ObjectPath>(data, pos, "object path") {
        Err(f) => Err(f),
        Ok((paths, a)) => match table_parse::<ComponentType>(data, a, "component type") {
            Err(f) => Err(f),
            Ok((types, b)) => match table_parse::<Asset>(data, b, "asset") {
                Err(f) => Err(f),
                Ok((assets, c)) => match parse_bool(data, c) {
                    Err(e) => Err(TableFailure::Decode(e)),
                    Ok((root, end)) => Ok(((paths, types, assets, root), end)),
                },
            },
        },
    }
}

/// Reads the references that lead an avatar: a table that lists a value twice is refused.
pub fn decode_externals(reader: &mut Reader<'_>) -> (result: Result<Externals, DecodeError>)
    ensures
        final(reader).data() == old(reader).data(),
        match externals_parse(old(reader).data(), old(reader).pos()) {
            Ok((view, end)) => result matches Ok(externals) && externals.deep_view() == view && final(reader).pos()
                == end,
            Err(failure) => table_failed(failure, result),
        },
{
    let object_paths = decode_extern_table::<ObjectPath>(reader, "object path")?;
    let component_types = decode_extern_table::<ComponentType>(reader, "component type")?;
    let assets = decode_extern_table::<Asset>(reader, "asset")?;
    let needs_relative_root = reader.bool()?;
    Ok(Externals { object_paths, component_types, assets, needs_relative_root })
}

proof fn lemma_table_round_trip<K: ExternKind>(
    table: Seq<(<K::Value as DeepView>::V, Seq<(Seq<char>, u32)>)>,
    what: &'static str,
    data: Seq<u8>,
    pos: int,
) where K::Value: WireFormat
    requires
        <ExternTable<K> as Encode>::encoding(table) is Ok,
        values_distinct(table),
        0 <= pos,
        pos + <ExternTable<K> as Encode>::encoding(table)->Ok_0.len() <= data.len(),
        data.subrange(pos, pos + <ExternTable<K> as Encode>::encoding(table)->Ok_0.len()) == <ExternTable<
            K,
        > as Encode>::encoding(table)->Ok_0,
    ensures
        table_parse::<K>(data, pos, what) == Ok::<_, TableFailure>(
            (table, pos + <ExternTable<K> as Encode>::encoding(table)->Ok_0.len()),
        ),
{
    <Vec<ExternEntry<K>> as WireFormat>::lemma_round_trip(table, data, pos);
    let values = values_of(table);
    assert forall|a: int, b: int| 0 <= a < b < values.len() implies values[a] != values[b] by {
        assert(values[a] == table[a].0 && values[b] == table[b].0);
    }
    lemma_distinct_no_repeat(values);
}

proof fn lemma_table_at<K: ExternKind>(
    table: Seq<(<K::Value as DeepView>::V, Seq<(Seq<char>, u32)>)>,
    what: &'static str,
    data: Seq<u8>,
    pos: int,
    whole: Seq<u8>,
    start: int,
) where K::Value: WireFormat
    requires
        <ExternTable<K> as Encode>::encoding(table) is Ok,
        values_distinct(table),
        0 <= pos,
        0 <= start,
        start + <ExternTable<K> as Encode>::encoding(table)->Ok_0.len() <= whole.len(),
        pos + whole.len() <= data.len(),
        data.subrange(pos, pos + whole.len()) == whole,
        whole.subrange(start, start + <ExternTable<K> as Encode>::encoding(table)->Ok_0.len()) == <ExternTable<
            K,
        > as Encode>::encoding(table)->Ok_0,
    ensures
        table_parse::<K>(data, pos + start, what) == Ok::<_, TableFailure>(
            (table, pos + start + <ExternTable<K> as Encode>::encoding(table)->Ok_0.len()),
        ),
{
    lemma_chunk(data, pos, whole, start, <ExternTable<K> as Encode>::encoding(table)->Ok_0);
    lemma_table_round_trip::<K>(table, what, data, pos + start);
}

proof fn lemma_externals_parse_parts(view: ExternalsView, data: Seq<u8>, pos: int, a: int, b: int, c: int)
    requires
        table_parse::<ObjectPath>(data, pos, "object path") == Ok::<_, TableFailure>((view.0, a)),
        table_parse::<ComponentType>(data, a, "component type") == Ok::<_, TableFailure>((view.1, b)),
        table_parse::<Asset>(data, b, "asset") == Ok::<_, TableFailure>((view.2, c)),
        parse_bool(data, c) == Ok::<(bool, int), DecodeError>((view.3, c + 1)),
    ensures
        externals_parse(data, pos) == Ok::<(ExternalsView, int), TableFailure>((view, c + 1)),
{
}

/// Reading the references where their bytes stand gives them back and ends right after them,
/// provided no table lists a value twice, as no table built by interning does.
/// Reading the references where their bytes stand gives them back and ends right after them,
/// provided no table lists a value twice, as no table built by interning does.
pub proof fn law_externals_round_trip(view: ExternalsView, data: Seq<u8>, pos: int)
    requires
        <Externals as Encode>::encoding(view) is Ok,
        values_distinct(view.0),
        values_distinct(view.1),
        values_distinct(view.2),
        0 <= pos,
        pos + <Externals as Encode>::encoding(view)->Ok_0.len() <= data.len(),
        data.subrange(pos, pos + <Externals as Encode>::encoding(view)->Ok_0.len()) == <Externals as Encode>::encoding(
            view,
        )->Ok_0,
    ensures
        externals_parse(data, pos) == Ok::<(ExternalsView, int), TableFailure>(
            (view, pos + <Externals as Encode>::encoding(view)->Ok_0.len()),
        ),
{
    let paths = <ExternTable<ObjectPath> as Encode>::encoding(view.0)->Ok_0;
    let types = <ExternTable<ComponentType> as Encode>::encoding(view.1)->Ok_0;
    let assets = <ExternTable<Asset> as Encode>::encoding(view.2)->Ok_0;
    let root = <bool as Encode>::encoding(view.3)->Ok_0;
    let whole = paths + types + assets + root;
    assert(<Externals as Encode>::encoding(view)->Ok_0 == whole);
    let a: int = paths.len() as int;
    let b: int = a + types.len();
    let c: int = b + assets.len();
    assert(whole.subrange(0, a) =~= paths);
    assert(whole.subrange(a, b) =~= types);
    assert(whole.subrange(b, c) =~= assets);
    lemma_table_at::<ObjectPath>(view.0, "object path", data, pos, whole, 0);
    lemma_table_at::<ComponentType>(view.1, "component type", data, pos, whole, a);
    lemma_table_at::<Asset>(view.2, "asset", data, pos, whole, b);
    assert(whole.subrange(c, c + root.len()) =~= root);
    lemma_chunk(data, pos, whole, c, root);
    <bool as WireFormat>::lemma_round_trip(view.3, data, pos + c);
    assert(root.len() == 1);
    assert(whole.len() == c + 1);
    lemma_externals_parse_parts(view, data, pos, pos + a, pos + b, pos + c);
}

} // verus!
