use declavatar2::bindings::{animator_parameter, material_slot, AssetArgument, Component, GameObject, Renderer};
use declavatar2::describe::{describe, describe_all};
use declavatar2::resolution::{SourceLocation, Unresolved};
use declavatar2::target::{
    AnimatedAnimatorProperty, AnimatedAnimatorTarget, AnimatedComponentProperty, AnimatedComponentTarget,
    AnimatedGameObjectProperty, AnimatedGameObjectTarget, AnimatedRendererProperty, AnimatedRendererTarget,
    AnimatedTarget, Declared, Phase, Target,
};
use declavatar2::text::decimal_text;
use declavatar2::unity_external::AssetLocator;
use declavatar2::value::{AnimatedValueType, AnimatorParameterType, BlendTreeType};

#[derive(Debug, Clone, Copy, PartialEq, Eq, PartialOrd, Ord, Hash)]
enum TestPhase {}

impl Phase for TestPhase {
    type ParameterRef = &'static str;
    type ObjectPath = &'static str;
    type ComponentType = &'static str;
    type ObjectRef = ();
}

fn at(line: u32) -> Option<SourceLocation> {
    Some(SourceLocation { chunk: "avatar.lua".into(), line })
}

fn renderer(property: AnimatedRendererProperty) -> AnimatedTarget<TestPhase> {
    AnimatedTarget::Renderer(AnimatedRendererTarget {
        path: "Body",
        renderer_type: "UnityEngine.SkinnedMeshRenderer".into(),
        property,
    })
}

fn object(property: AnimatedGameObjectProperty) -> AnimatedTarget<TestPhase> {
    AnimatedTarget::GameObject(AnimatedGameObjectTarget { path: "Armature/Hips", property })
}

#[test]
fn animated_target_type_hints_match_expected() {
    let cases: Vec<(AnimatedTarget<TestPhase>, Option<AnimatedValueType>)> = vec![
        (
            AnimatedTarget::AnimatorSelf(AnimatedAnimatorTarget {
                property: AnimatedAnimatorProperty::ParameterFloatValue { name: "GestureLeft" },
            }),
            Some(AnimatedValueType::Float),
        ),
        (object(AnimatedGameObjectProperty::Active), Some(AnimatedValueType::Bool)),
        (object(AnimatedGameObjectProperty::TransformPosition), Some(AnimatedValueType::Vector3)),
        (object(AnimatedGameObjectProperty::TransformRotationQuaternion), Some(AnimatedValueType::Quaternion)),
        (object(AnimatedGameObjectProperty::TransformRotationEuler), Some(AnimatedValueType::Vector3)),
        (object(AnimatedGameObjectProperty::TransformScale), Some(AnimatedValueType::Vector3)),
        (renderer(AnimatedRendererProperty::Enabled), Some(AnimatedValueType::Bool)),
        (renderer(AnimatedRendererProperty::BlendShape { name: "Smile".into() }), Some(AnimatedValueType::Float)),
        (renderer(AnimatedRendererProperty::Material { slot: 0 }), Some(AnimatedValueType::ObjectReference)),
        (renderer(AnimatedRendererProperty::MaterialProperty { name: "_Color".into() }), None),
        (renderer(AnimatedRendererProperty::Serialized { name: "m_ProbeAnchor".into() }), None),
        (
            AnimatedTarget::Component(AnimatedComponentTarget {
                path: "AvatarRoot/Light",
                component_type: "UnityEngine.Light",
                property: AnimatedComponentProperty::Enabled,
                value_type: AnimatedValueType::Bool,
            }),
            Some(AnimatedValueType::Bool),
        ),
        (
            AnimatedTarget::Component(AnimatedComponentTarget {
                path: "AvatarRoot/PhysBone",
                component_type: "VRC.SDK3.Dynamics.PhysBone.Components.VRCPhysBone",
                property: AnimatedComponentProperty::Serialized { name: "pull".into() },
                value_type: AnimatedValueType::Float,
            }),
            None,
        ),
    ];
    for (target, expected) in cases {
        assert_eq!(target.type_hint(), expected, "{target:?}");
    }
}

#[test]
fn game_object_target_reports_expected_type_hint() {
    let active = AnimatedGameObjectTarget::<TestPhase> { path: "Armature/Head", property: AnimatedGameObjectProperty::Active };
    assert_eq!(active.type_hint(), Some(AnimatedValueType::Bool));
    let euler = AnimatedGameObjectTarget::<TestPhase> {
        path: "Armature/Head",
        property: AnimatedGameObjectProperty::TransformRotationEuler,
    };
    assert_eq!(euler.type_hint(), Some(AnimatedValueType::Vector3));
}

#[test]
fn value_types_know_whether_they_interpolate() {
    let interpolable = [
        AnimatedValueType::Float,
        AnimatedValueType::Vector2,
        AnimatedValueType::Vector3,
        AnimatedValueType::Vector4,
        AnimatedValueType::Quaternion,
        AnimatedValueType::Color,
    ];
    for value_type in interpolable {
        assert!(value_type.is_interpolable(), "{value_type:?}");
    }
    for value_type in [AnimatedValueType::Int, AnimatedValueType::Bool, AnimatedValueType::ObjectReference] {
        assert!(!value_type.is_interpolable(), "{value_type:?}");
    }
}

#[test]
fn animator_parameter_types_hold_bools_ints_and_floats() {
    assert_eq!(AnimatorParameterType::of(AnimatedValueType::Bool), Some(AnimatorParameterType::Bool));
    assert_eq!(AnimatorParameterType::of(AnimatedValueType::Int), Some(AnimatorParameterType::Int));
    assert_eq!(AnimatorParameterType::of(AnimatedValueType::Float), Some(AnimatorParameterType::Float));
    assert_eq!(AnimatorParameterType::of(AnimatedValueType::Color), None);
    assert_eq!(AnimatorParameterType::of(AnimatedValueType::ObjectReference), None);
    for parameter_type in [AnimatorParameterType::Bool, AnimatorParameterType::Int, AnimatorParameterType::Float] {
        assert_eq!(AnimatorParameterType::of(parameter_type.animated_value_type()), Some(parameter_type));
    }
}

#[test]
fn only_a_linear_tree_is_one_dimensional() {
    assert!(!BlendTreeType::Linear.is_two_dimensional());
    assert!(BlendTreeType::Simple2d.is_two_dimensional());
    assert!(BlendTreeType::Freeform2d.is_two_dimensional());
    assert!(BlendTreeType::Cartesian2d.is_two_dimensional());
}

fn shape(path: &str, name: &str) -> AnimatedTarget<Declared> {
    AnimatedTarget::Renderer(AnimatedRendererTarget {
        path: Unresolved::new(path.into()),
        renderer_type: "UnityEngine.SkinnedMeshRenderer".into(),
        property: AnimatedRendererProperty::BlendShape { name: name.into() },
    })
}

#[test]
fn targets_are_described_for_messages() {
    let cases: Vec<(AnimatedTarget<Declared>, &str)> = vec![
        (shape("Face", "smile"), "`Face` shape `smile`"),
        (
            AnimatedTarget::GameObject(AnimatedGameObjectTarget {
                path: Unresolved::new("Hat".into()),
                property: AnimatedGameObjectProperty::Active,
            }),
            "`Hat` active",
        ),
        (
            AnimatedTarget::Renderer(AnimatedRendererTarget {
                path: Unresolved::new("Body".into()),
                renderer_type: "UnityEngine.SkinnedMeshRenderer".into(),
                property: AnimatedRendererProperty::Material { slot: 2 },
            }),
            "`Body` material 2",
        ),
        (
            AnimatedTarget::Component(AnimatedComponentTarget {
                path: Unresolved::new("Root".into()),
                component_type: Unresolved::new("UnityEngine.Light".into()),
                property: AnimatedComponentProperty::Serialized { name: "m_Intensity".into() },
                value_type: AnimatedValueType::Float,
            }),
            "`Root` UnityEngine.Light field `m_Intensity`",
        ),
        (
            AnimatedTarget::AnimatorSelf(AnimatedAnimatorTarget {
                property: AnimatedAnimatorProperty::ParameterFloatValue { name: Unresolved::new("Blend".into()) },
            }),
            "animator parameter `Blend`",
        ),
    ];
    for (target, expected) in cases {
        assert_eq!(describe(&target), expected);
    }
}

#[test]
fn every_property_has_its_words() {
    let object = |property| {
        describe(&AnimatedTarget::GameObject(AnimatedGameObjectTarget { path: Unresolved::new("O".into()), property }))
    };
    assert_eq!(object(AnimatedGameObjectProperty::TransformPosition), "`O` position");
    assert_eq!(object(AnimatedGameObjectProperty::TransformRotationQuaternion), "`O` rotation");
    assert_eq!(object(AnimatedGameObjectProperty::TransformRotationEuler), "`O` rotation");
    assert_eq!(object(AnimatedGameObjectProperty::TransformScale), "`O` scale");

    let renderer = |property| {
        describe(&AnimatedTarget::Renderer(AnimatedRendererTarget {
            path: Unresolved::new("R".into()),
            renderer_type: "UnityEngine.MeshRenderer".into(),
            property,
        }))
    };
    assert_eq!(renderer(AnimatedRendererProperty::Enabled), "`R` enabled");
    assert_eq!(renderer(AnimatedRendererProperty::MaterialProperty { name: "_Color".into() }), "`R` material property `_Color`");
    assert_eq!(renderer(AnimatedRendererProperty::Serialized { name: "m_Flag".into() }), "`R` field `m_Flag`");
    assert_eq!(renderer(AnimatedRendererProperty::Material { slot: 4_000_000_000 }), "`R` material 4000000000");

    let component = describe(&AnimatedTarget::Component(AnimatedComponentTarget {
        path: Unresolved::new("C".into()),
        component_type: Unresolved::new("T".into()),
        property: AnimatedComponentProperty::Enabled,
        value_type: AnimatedValueType::Bool,
    }));
    assert_eq!(component, "`C` T enabled");
}

#[test]
fn several_targets_are_listed_with_commas() {
    assert_eq!(describe_all(&[]), "");
    assert_eq!(describe_all(&[shape("Face", "smile")]), "`Face` shape `smile`");
    assert_eq!(
        describe_all(&[shape("Face", "smile"), shape("Face", "angry"), shape("Body", "fat")]),
        "`Face` shape `smile`, `Face` shape `angry`, `Body` shape `fat`"
    );
}

#[test]
fn numbers_are_written_in_decimal() {
    assert_eq!(decimal_text(0), "0");
    assert_eq!(decimal_text(7), "7");
    assert_eq!(decimal_text(10), "10");
    assert_eq!(decimal_text(1905), "1905");
    assert_eq!(decimal_text(u64::MAX), "18446744073709551615");
}

#[test]
fn a_renderer_defaults_to_a_skinned_mesh_renderer() {
    let face = Renderer::new(Unresolved::located("Face".into(), at(1).unwrap()), None);
    let target = face.target(AnimatedRendererProperty::BlendShape { name: "smile".into() }, at(4));
    let AnimatedTarget::Renderer(renderer) = target else {
        panic!("a renderer animates a renderer target");
    };
    assert_eq!(renderer.renderer_type, "UnityEngine.SkinnedMeshRenderer");
    assert_eq!(renderer.path.value, "Face");
    assert_eq!(renderer.path.at, at(4));
    assert_eq!(renderer.property, AnimatedRendererProperty::BlendShape { name: "smile".into() });

    let mesh = Renderer::new(Unresolved::new("Hat".into()), Some("UnityEngine.MeshRenderer".into()));
    let AnimatedTarget::Renderer(renderer) = mesh.target(AnimatedRendererProperty::Enabled, None) else {
        panic!("a renderer animates a renderer target");
    };
    assert_eq!(renderer.renderer_type, "UnityEngine.MeshRenderer");
    assert_eq!(renderer.path.at, None);
}

#[test]
fn a_bound_object_points_at_the_line_that_uses_it() {
    let hat = GameObject::new(Unresolved::located("Hat".into(), at(1).unwrap()));
    let AnimatedTarget::GameObject(target) = hat.target(AnimatedGameObjectProperty::Active, at(7)) else {
        panic!("an object animates a GameObject target");
    };
    assert_eq!(target.path.value, "Hat");
    assert_eq!(target.path.at, at(7));
    assert_eq!(target.property, AnimatedGameObjectProperty::Active);

    let light = Component::new(Unresolved::new("Root/Light".into()), Unresolved::new("UnityEngine.Light".into()));
    let AnimatedTarget::Component(target) = light.target(AnimatedComponentProperty::Enabled, AnimatedValueType::Bool, at(9))
    else {
        panic!("a component animates a component target");
    };
    assert_eq!(target.path.value, "Root/Light");
    assert_eq!(target.path.at, at(9));
    assert_eq!(target.component_type.value, "UnityEngine.Light");
    assert_eq!(target.component_type.at, at(9));
    assert_eq!(target.value_type, AnimatedValueType::Bool);
}

#[test]
fn an_animator_parameter_target_names_a_float_parameter() {
    let target = animator_parameter(Unresolved::new("Blend".into()));
    assert_eq!(
        target,
        AnimatedTarget::AnimatorSelf(AnimatedAnimatorTarget {
            property: AnimatedAnimatorProperty::ParameterFloatValue { name: Unresolved::new("Blend".into()) },
        })
    );
    assert_eq!(target.type_hint(), Some(AnimatedValueType::Float));
}

#[test]
fn a_material_slot_must_not_be_negative() {
    assert_eq!(material_slot(0), Some(0));
    assert_eq!(material_slot(3), Some(3));
    assert_eq!(material_slot(-1), None);
    assert_eq!(material_slot(u32::MAX as i64), Some(u32::MAX));
    assert_eq!(material_slot(u32::MAX as i64 + 1), None);
}

#[test]
fn a_bare_asset_name_takes_the_type_its_position_implies() {
    assert_eq!(
        AssetArgument::Named("Skin".into()).into_locator("UnityEngine.Material"),
        AssetLocator::Named { asset_type: "UnityEngine.Material".into(), name: "Skin".into() }
    );
    assert_eq!(
        AssetArgument::Locator(AssetLocator::Guid("0123".into())).into_locator("UnityEngine.Material"),
        AssetLocator::Guid("0123".into())
    );
}
