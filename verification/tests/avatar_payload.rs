use std::fmt::Debug;

use declavatar2::avatar_codec::{decode_transition_source, decode_transition_target};
use declavatar2::bindings::{default_renderer_type_name, material_type_name, AssetArgument};
use declavatar2::controller::{
    controller_settings, needs_relative_root, ControllerSettings, MenuAxis, TransitionSource, TransitionTarget,
};
use declavatar2::external::{decode_extern, Extern, ExternEntry, ExternTable};
use declavatar2::reference_checks::{add_parameter, avatar_scope, check_state_index, controller_scope, unknown, ParameterTypes};
use declavatar2::resolution::{Resolved, SourceLocation, Unresolved};
use declavatar2::target::{AnimatedComponentProperty, AnimatedGameObjectProperty, AnimatedRendererProperty};
use declavatar2::unity_external::{Asset, AssetLocator, Externals, ObjectPath};
use declavatar2::value::{AnimatedValueType, AnimatorParameterType, BlendTreeType, MergeMode, PathMode};
use declavatar2::wire::{Decode, DecodeError, Encode, EncodeError, Reader, Writer};

fn encode<T: Encode>(value: &T) -> Vec<u8> {
    let mut writer = Writer::new();
    value.encode(&mut writer).expect("the fixture should be encodable");
    writer.into_bytes()
}

fn decode<T: Decode>(bytes: &[u8]) -> Result<T, DecodeError> {
    let mut reader = Reader::new(bytes);
    let value = T::decode(&mut reader)?;
    reader.finish()?;
    Ok(value)
}

fn round_trip<T: Encode + Decode + PartialEq + Debug>(value: T) {
    let bytes = encode(&value);
    assert_eq!(decode::<T>(&bytes).unwrap(), value);
}

fn at(line: u32) -> SourceLocation {
    SourceLocation { chunk: "avatar.lua".into(), line }
}

#[test]
fn asset_locators() {
    round_trip(AssetLocator::Guid("0123456789abcdef0123456789abcdef".into()));
    round_trip(AssetLocator::Path("Assets/Materials/Skin.mat".into()));
    round_trip(AssetLocator::Named { asset_type: "UnityEngine.Material".into(), name: "Skin".into() });
    assert_eq!(encode(&AssetLocator::Path("a".into())), [1, 1, 0, 0, 0, b'a']);
}

#[test]
fn merge_modes() {
    round_trip(MergeMode::Append);
    round_trip(MergeMode::Replace);
    assert_eq!(encode(&MergeMode::Replace), [1]);
}

#[test]
fn path_modes() {
    round_trip(PathMode::Absolute);
    round_trip(PathMode::Relative);
    assert_eq!(encode(&PathMode::Relative), [1]);
}

#[test]
fn blend_tree_types() {
    for (tag, value) in [
        BlendTreeType::Linear,
        BlendTreeType::Simple2d,
        BlendTreeType::Freeform2d,
        BlendTreeType::Cartesian2d,
    ]
    .into_iter()
    .enumerate()
    {
        assert_eq!(encode(&value), [tag as u8]);
        round_trip(value);
    }
}

#[test]
fn game_object_properties() {
    for (tag, value) in [
        AnimatedGameObjectProperty::Active,
        AnimatedGameObjectProperty::TransformPosition,
        AnimatedGameObjectProperty::TransformRotationQuaternion,
        AnimatedGameObjectProperty::TransformRotationEuler,
        AnimatedGameObjectProperty::TransformScale,
    ]
    .into_iter()
    .enumerate()
    {
        assert_eq!(encode(&value), [tag as u8]);
        round_trip(value);
    }
}

#[test]
fn renderer_properties() {
    round_trip(AnimatedRendererProperty::Enabled);
    round_trip(AnimatedRendererProperty::BlendShape { name: "smile".into() });
    round_trip(AnimatedRendererProperty::Material { slot: u32::MAX });
    round_trip(AnimatedRendererProperty::MaterialProperty { name: "_Color".into() });
    round_trip(AnimatedRendererProperty::Serialized { name: "m_Mesh".into() });
    assert_eq!(encode(&AnimatedRendererProperty::Material { slot: 2 }), [2, 2, 0, 0, 0]);
}

#[test]
fn component_properties() {
    round_trip(AnimatedComponentProperty::Enabled);
    round_trip(AnimatedComponentProperty::Serialized { name: "m_Range".into() });
}

#[test]
fn animated_value_types() {
    let all = [
        AnimatedValueType::Float,
        AnimatedValueType::Int,
        AnimatedValueType::Bool,
        AnimatedValueType::Vector2,
        AnimatedValueType::Vector3,
        AnimatedValueType::Vector4,
        AnimatedValueType::Quaternion,
        AnimatedValueType::Color,
        AnimatedValueType::ObjectReference,
    ];
    for (tag, value) in all.into_iter().enumerate() {
        assert_eq!(encode(&value), [tag as u8]);
        round_trip(value);
    }
}

#[test]
fn unknown_discriminators_are_rejected() {
    assert_eq!(
        decode::<AnimatedValueType>(&[9]).unwrap_err(),
        DecodeError::InvalidDiscriminator { of_type: "AnimatedValueType", value: 9 }
    );
    assert_eq!(
        decode::<AssetLocator>(&[3]).unwrap_err(),
        DecodeError::InvalidDiscriminator { of_type: "AssetLocator", value: 3 }
    );
    assert_eq!(
        decode::<AnimatedRendererProperty>(&[5]).unwrap_err(),
        DecodeError::InvalidDiscriminator { of_type: "AnimatedRendererProperty", value: 5 }
    );
    assert_eq!(
        decode::<AnimatedComponentProperty>(&[2]).unwrap_err(),
        DecodeError::InvalidDiscriminator { of_type: "AnimatedComponentProperty", value: 2 }
    );
    assert_eq!(
        decode::<MergeMode>(&[2]).unwrap_err(),
        DecodeError::InvalidDiscriminator { of_type: "MergeMode", value: 2 }
    );
}

fn source_in(bytes: &[u8], states: usize) -> Result<TransitionSource, DecodeError> {
    let mut reader = Reader::new(bytes);
    let value = decode_transition_source(&mut reader, states)?;
    reader.finish()?;
    Ok(value)
}

fn target_in(bytes: &[u8], states: usize) -> Result<TransitionTarget, DecodeError> {
    let mut reader = Reader::new(bytes);
    let value = decode_transition_target(&mut reader, states)?;
    reader.finish()?;
    Ok(value)
}

#[test]
fn transition_sources() {
    for value in [TransitionSource::Entry, TransitionSource::State(3)] {
        assert_eq!(source_in(&encode(&value), 4).unwrap(), value);
    }
    assert_eq!(encode(&TransitionSource::State(3)), [1, 3, 0, 0, 0]);
}

#[test]
fn transition_targets() {
    for value in [TransitionTarget::State(0), TransitionTarget::Exit] {
        assert_eq!(target_in(&encode(&value), 4).unwrap(), value);
    }
    assert_eq!(encode(&TransitionTarget::Exit), [1]);
}

#[test]
fn state_indices_are_checked_against_the_layer() {
    assert_eq!(
        source_in(&encode(&TransitionSource::State(4)), 4).unwrap_err(),
        DecodeError::StateOutOfRange { index: 4, len: 4 }
    );
    assert_eq!(
        target_in(&encode(&TransitionTarget::State(5)), 4).unwrap_err(),
        DecodeError::StateOutOfRange { index: 5, len: 4 }
    );
    assert_eq!(
        target_in(&encode(&TransitionTarget::State(0)), 0).unwrap_err(),
        DecodeError::StateOutOfRange { index: 0, len: 0 }
    );
    assert_eq!(
        source_in(&[2], 4).unwrap_err(),
        DecodeError::InvalidDiscriminator { of_type: "TransitionSource", value: 2 }
    );
}

#[test]
fn state_indices_beyond_u32_are_encode_errors() {
    if let Some(index) = (u32::MAX as usize).checked_add(1) {
        let mut writer = Writer::new();
        assert_eq!(
            TransitionSource::State(index).encode(&mut writer).unwrap_err(),
            EncodeError::Overflow { what: "state index", value: index }
        );
    }
}

fn read_extern(bytes: &[u8], kind: &'static str, len: usize) -> Result<Extern<ObjectPath>, DecodeError> {
    let mut reader = Reader::new(bytes);
    let value = decode_extern(&mut reader, kind, len)?;
    reader.finish()?;
    Ok(value)
}

#[test]
fn references_are_checked_against_their_table() {
    let bytes = encode(&Extern::<ObjectPath>::from_index(3));
    assert_eq!(bytes, [3, 0, 0, 0]);
    assert_eq!(read_extern(&bytes, "object path", 4).unwrap().index(), 3);
    assert_eq!(
        read_extern(&bytes, "object path", 3).unwrap_err(),
        DecodeError::ExternOutOfRange { kind: "object path", index: 3, len: 3 }
    );
    assert_eq!(
        read_extern(&encode(&Extern::<ObjectPath>::from_index(u32::MAX)), "object path", 4).unwrap_err(),
        DecodeError::ExternOutOfRange { kind: "object path", index: u32::MAX, len: 4 }
    );
}

#[test]
fn extern_entries_round_trip() {
    let entry = ExternEntry::<Asset> {
        value: AssetLocator::Guid("abc".into()),
        referenced_at: vec![at(3), at(8)],
    };
    let bytes = encode(&entry);
    let decoded: ExternEntry<Asset> = decode(&bytes).unwrap();
    assert_eq!(decoded.value, entry.value);
    assert_eq!(decoded.referenced_at, entry.referenced_at);
}

#[test]
fn externals_lead_the_avatar_payload_and_size_the_tables() {
    let mut externals = Externals::new();
    externals.object_paths.intern(Unresolved::located("Body".into(), at(3)));
    externals.object_paths.intern(Unresolved::located("Body".into(), at(5)));
    externals.assets.intern(Unresolved::new(AssetLocator::Guid("abc".into())));

    let bytes = encode(&externals);
    assert_eq!(&bytes[..4], [1, 0, 0, 0]);
    assert_eq!(&bytes[4..12], [4, 0, 0, 0, b'B', b'o', b'd', b'y']);
    let mut reader = Reader::new(&bytes);
    let paths: Vec<ExternEntry<ObjectPath>> = reader.decode().unwrap();
    assert_eq!(paths.len(), 1);
    assert_eq!(paths[0].referenced_at, vec![at(3), at(5)]);
    let types: Vec<ExternEntry<declavatar2::unity_external::ComponentType>> = reader.decode().unwrap();
    assert!(types.is_empty());
    let assets: Vec<ExternEntry<Asset>> = reader.decode().unwrap();
    assert_eq!(assets[0].value, AssetLocator::Guid("abc".into()));
    assert!(!reader.decode::<bool>().unwrap());
    reader.finish().unwrap();
}

#[test]
fn an_empty_table_is_an_empty_list() {
    assert_eq!(encode(&ExternTable::<ObjectPath>::new()), [0, 0, 0, 0]);
    assert_eq!(encode(&Externals::new()), [0, 0, 0, 0, 0, 0, 0, 0, 0, 0, 0, 0, 0]);
}

#[test]
fn a_menu_axis_is_its_parameter_and_labels() {
    let axis = MenuAxis {
        parameter: Resolved::new("Look".into(), AnimatedValueType::Float),
        positive: Some("R".into()),
        negative: None,
    };
    assert_eq!(encode(&axis), [4, 0, 0, 0, b'L', b'o', b'o', b'k', 1, 1, 0, 0, 0, b'R', 0]);
    assert_eq!(encode(&Resolved::new("P".to_owned(), ())), [1, 0, 0, 0, b'P']);
}

#[test]
fn conflicting_parameter_types_are_rejected() {
    let mut scope = ParameterTypes::new();
    assert_eq!(add_parameter(&mut scope, "Emote", AnimatedValueType::Int), Ok(()));
    assert_eq!(add_parameter(&mut scope, "Emote", AnimatedValueType::Int), Ok(()));
    assert_eq!(add_parameter(&mut scope, "Wink", AnimatedValueType::Float), Ok(()));
    assert_eq!(
        add_parameter(&mut scope, "Emote", AnimatedValueType::Bool),
        Err(DecodeError::ConflictingParameter {
            name: "Emote".into(),
            first: AnimatedValueType::Int,
            second: AnimatedValueType::Bool,
        })
    );
    assert_eq!(scope.get("Emote"), Some(AnimatedValueType::Int));
    assert_eq!(scope.get("Wink"), Some(AnimatedValueType::Float));
    assert_eq!(scope.get("Hat"), None);
}

#[test]
fn state_and_discriminator_checks_report_what_they_saw() {
    assert_eq!(check_state_index(2, 3), Ok(2));
    assert_eq!(check_state_index(3, 3), Err(DecodeError::StateOutOfRange { index: 3, len: 3 }));
    assert_eq!(unknown("Motion", 4), DecodeError::InvalidDiscriminator { of_type: "Motion", value: 4 });
}

#[test]
fn a_bare_material_name_is_a_material() {
    assert_eq!(material_type_name(), "UnityEngine.Material");
    assert_eq!(default_renderer_type_name(), "UnityEngine.SkinnedMeshRenderer");
    assert_eq!(
        AssetArgument::Named("Skin".into()).into_locator(material_type_name()),
        AssetLocator::Named { asset_type: "UnityEngine.Material".into(), name: "Skin".into() }
    );
}

#[test]
fn a_controller_declares_each_parameter_once() {
    let parameters = [
        ("Emote".to_string(), AnimatorParameterType::Int),
        ("Hat".to_string(), AnimatorParameterType::Bool),
        ("Wink".to_string(), AnimatorParameterType::Float),
    ];
    let scope = controller_scope(&parameters).unwrap();
    assert_eq!(scope.get("Emote"), Some(AnimatedValueType::Int));
    assert_eq!(scope.get("Hat"), Some(AnimatedValueType::Bool));
    assert_eq!(scope.get("Wink"), Some(AnimatedValueType::Float));
    assert_eq!(scope.get("Other"), None);

    let repeated = [
        ("Emote".to_string(), AnimatorParameterType::Int),
        ("Hat".to_string(), AnimatorParameterType::Bool),
        ("Hat".to_string(), AnimatorParameterType::Bool),
    ];
    assert_eq!(
        controller_scope(&repeated).unwrap_err(),
        DecodeError::Duplicate { what: "animator parameter", key: "`Hat`".into() }
    );
}

#[test]
fn the_avatar_scope_accepts_a_name_again_with_its_type_only() {
    let declared = [
        ("Emote".to_string(), AnimatedValueType::Int),
        ("Emote".to_string(), AnimatedValueType::Int),
        ("Wink".to_string(), AnimatedValueType::Float),
    ];
    let scope = avatar_scope(&declared).unwrap();
    assert_eq!(scope.get("Emote"), Some(AnimatedValueType::Int));
    assert_eq!(scope.get("Wink"), Some(AnimatedValueType::Float));

    let conflicting = [
        ("Emote".to_string(), AnimatedValueType::Int),
        ("Wink".to_string(), AnimatedValueType::Float),
        ("Emote".to_string(), AnimatedValueType::Bool),
        ("Wink".to_string(), AnimatedValueType::Int),
    ];
    assert_eq!(
        avatar_scope(&conflicting).unwrap_err(),
        DecodeError::ConflictingParameter { name: "Emote".into(), first: AnimatedValueType::Int, second: AnimatedValueType::Bool }
    );
}

#[test]
fn controller_settings_default_to_appending_from_the_root() {
    assert_eq!(
        controller_settings(None, None, None),
        ControllerSettings { mode: MergeMode::Append, priority: 0, path_mode: PathMode::Absolute }
    );
    assert_eq!(
        controller_settings(Some(MergeMode::Replace), Some(-3), Some(PathMode::Relative)),
        ControllerSettings { mode: MergeMode::Replace, priority: -3, path_mode: PathMode::Relative }
    );
}

#[test]
fn a_relative_controller_asks_the_client_for_a_root() {
    assert!(!needs_relative_root(&[]));
    assert!(!needs_relative_root(&[PathMode::Absolute, PathMode::Absolute]));
    assert!(needs_relative_root(&[PathMode::Absolute, PathMode::Relative]));
}
