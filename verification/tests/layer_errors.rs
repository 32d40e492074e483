use declavatar2::puppet_pass::{keyframe_type_mismatch, KeyframeConflict};
use declavatar2::resolution::{SourceLocation, Unresolved};
use declavatar2::state_graph::{options_need_default, toggle_needs_both_sides};
use declavatar2::target::{AnimatedRendererProperty, AnimatedRendererTarget, AnimatedTarget, Declared};
use declavatar2::transform_error::TransformErrorKind;
use declavatar2::value::AnimatedValueType;

fn located_at(line: u32) -> Option<SourceLocation> {
    Some(SourceLocation { chunk: "avatar.lua".into(), line })
}

fn on_renderer(path: &str, property: AnimatedRendererProperty) -> AnimatedTarget<Declared> {
    AnimatedTarget::Renderer(AnimatedRendererTarget {
        path: Unresolved::new(path.into()),
        renderer_type: "UnityEngine.SkinnedMeshRenderer".into(),
        property,
    })
}

#[test]
fn a_toggle_that_cannot_be_zeroed_names_its_target() {
    let material = on_renderer("Body", AnimatedRendererProperty::Material { slot: 0 });
    assert_eq!(
        toggle_needs_both_sides(&"Hat".to_string(), &material, &located_at(20)),
        TransformErrorKind::ToggleNeedsBothSides { layer: "Hat".into(), target: "`Body` material 0".into() }
            .at(located_at(20))
    );
}

#[test]
fn options_without_a_default_name_their_targets() {
    let material = on_renderer("Body", AnimatedRendererProperty::Material { slot: 0 });
    assert_eq!(
        options_need_default(&"Expressions".to_string(), &[material], &located_at(10)),
        TransformErrorKind::OptionsNeedDefault { layer: "Expressions".into(), targets: "`Body` material 0".into() }
            .at(located_at(10))
    );
}

#[test]
fn a_keyframe_type_conflict_names_layer_target_and_types() {
    let open = on_renderer("Face", AnimatedRendererProperty::BlendShape { name: "open".into() });
    let conflict = KeyframeConflict { key: 0, first: AnimatedValueType::Float, second: AnimatedValueType::Int };
    assert_eq!(
        keyframe_type_mismatch(&"Wink".to_string(), &open, &conflict, &located_at(30)),
        TransformErrorKind::KeyframeTypeMismatch {
            layer: "Wink".into(),
            target: "`Face` shape `open`".into(),
            first: AnimatedValueType::Float,
            second: AnimatedValueType::Int,
        }
        .at(located_at(30))
    );
}
