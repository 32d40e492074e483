use declavatar2::external::Extern;
use declavatar2::reference_checks::{add_parameter, ParameterTypes};
use declavatar2::resolution::Resolved;
use declavatar2::target::{
    AnimatedAnimatorProperty, AnimatedAnimatorTarget, AnimatedComponentProperty, AnimatedComponentTarget,
    AnimatedGameObjectProperty, AnimatedGameObjectTarget, AnimatedRendererProperty, AnimatedRendererTarget,
    AnimatedTarget, Compiled,
};
use declavatar2::target_codec::decode_target;
use declavatar2::value::AnimatedValueType;
use declavatar2::wire::{DecodeError, Encode, Reader, Writer};

fn bytes_of(target: &AnimatedTarget<Compiled>) -> Vec<u8> {
    let mut writer = Writer::new();
    target.encode(&mut writer).unwrap();
    writer.into_bytes()
}

fn scope() -> ParameterTypes {
    let mut scope = ParameterTypes::new();
    add_parameter(&mut scope, "Wink", AnimatedValueType::Float).unwrap();
    scope
}

fn read(bytes: &[u8], paths: usize, components: usize) -> Result<AnimatedTarget<Compiled>, DecodeError> {
    let mut reader = Reader::new(bytes);
    let target = decode_target(&mut reader, &scope(), paths, components)?;
    reader.finish()?;
    Ok(target)
}

fn game_object(path: u32) -> AnimatedTarget<Compiled> {
    AnimatedTarget::GameObject(AnimatedGameObjectTarget {
        path: Extern::from_index(path),
        property: AnimatedGameObjectProperty::TransformScale,
    })
}

fn parameter(name: &str) -> AnimatedTarget<Compiled> {
    AnimatedTarget::AnimatorSelf(AnimatedAnimatorTarget {
        property: AnimatedAnimatorProperty::ParameterFloatValue {
            name: Resolved::new(name.to_string(), AnimatedValueType::Float),
        },
    })
}

#[test]
fn targets_are_written_as_their_tag_and_fields() {
    assert_eq!(bytes_of(&game_object(1)), [1, 1, 0, 0, 0, 4]);
    assert_eq!(bytes_of(&parameter("Wink")), [0, 0, 4, 0, 0, 0, b'W', b'i', b'n', b'k']);
}

#[test]
fn every_kind_of_target_reads_back() {
    let targets = [
        parameter("Wink"),
        game_object(2),
        AnimatedTarget::Renderer(AnimatedRendererTarget {
            path: Extern::from_index(0),
            renderer_type: "UnityEngine.SkinnedMeshRenderer".into(),
            property: AnimatedRendererProperty::BlendShape { name: "smile".into() },
        }),
        AnimatedTarget::Component(AnimatedComponentTarget {
            path: Extern::from_index(1),
            component_type: Extern::from_index(0),
            property: AnimatedComponentProperty::Serialized { name: "m_Intensity".into() },
            value_type: AnimatedValueType::Float,
        }),
    ];
    for target in targets {
        assert_eq!(read(&bytes_of(&target), 3, 1).unwrap(), target);
    }
}

#[test]
fn a_target_must_point_into_its_tables() {
    assert_eq!(
        read(&bytes_of(&game_object(3)), 3, 1).unwrap_err(),
        DecodeError::ExternOutOfRange { kind: "object path", index: 3, len: 3 }
    );
    let component = AnimatedTarget::Component(AnimatedComponentTarget {
        path: Extern::from_index(0),
        component_type: Extern::from_index(1),
        property: AnimatedComponentProperty::Enabled,
        value_type: AnimatedValueType::Bool,
    });
    assert_eq!(
        read(&bytes_of(&component), 3, 1).unwrap_err(),
        DecodeError::ExternOutOfRange { kind: "component type", index: 1, len: 1 }
    );
}

#[test]
fn a_parameter_target_must_name_a_parameter_in_scope() {
    assert_eq!(read(&bytes_of(&parameter("Blink")), 0, 0).unwrap_err(), DecodeError::UnknownParameter("Blink".into()));
}

#[test]
fn unknown_target_tags_are_rejected() {
    assert_eq!(read(&[4], 0, 0).unwrap_err(), DecodeError::InvalidDiscriminator { of_type: "AnimatedTarget", value: 4 });
    assert_eq!(
        read(&[0, 1], 0, 0).unwrap_err(),
        DecodeError::InvalidDiscriminator { of_type: "AnimatedAnimatorProperty", value: 1 }
    );
}
