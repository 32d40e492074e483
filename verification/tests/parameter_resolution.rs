use declavatar2::declaration::{ParameterScope, ProvidedParameterGroup};
use declavatar2::parameters::{
    collect_parameters, expression_entry, ExpressionEntry, ParameterDefault, ParameterOutline, ParameterSource, ParameterTable,
};
use declavatar2::resolution::{Resolved, SourceLocation, Unresolved};
use declavatar2::target::{
    AnimatedAnimatorProperty, AnimatedAnimatorTarget, AnimatedComponentProperty, AnimatedComponentTarget,
    AnimatedGameObjectProperty, AnimatedGameObjectTarget, AnimatedRendererProperty, AnimatedRendererTarget,
    AnimatedTarget, Declared,
};
use declavatar2::target_pass::compile_target;
use declavatar2::transform_error::{TransformError, TransformErrorKind};
use declavatar2::unity_external::Externals;
use declavatar2::value::{AnimatedValueType, AnimatorParameterType};

fn at(line: u32) -> Option<SourceLocation> {
    Some(SourceLocation { chunk: "avatar.lua".into(), line })
}

fn declared(parameters: &[(&str, AnimatorParameterType, u32)]) -> ParameterTable {
    let mut table = ParameterTable::new();
    for (name, value_type, line) in parameters {
        table.declare(&name.to_string(), *value_type, None, &at(*line)).expect("the fixture declares each name once");
    }
    table
}

#[test]
fn parameters_are_recorded_with_their_types() {
    let table = declared(&[
        ("Emote", AnimatorParameterType::Int, 1),
        ("Hat", AnimatorParameterType::Bool, 2),
        ("Wink", AnimatorParameterType::Float, 3),
    ]);
    assert_eq!(table.resolve(&Unresolved::new("Emote".to_owned())).unwrap().context, AnimatedValueType::Int);
    assert_eq!(table.resolve(&Unresolved::new("Hat".to_owned())).unwrap().context, AnimatedValueType::Bool);
    assert_eq!(table.resolve(&Unresolved::new("Wink".to_owned())).unwrap().context, AnimatedValueType::Float);
    let names: Vec<&str> = table.entry_list().iter().map(|entry| entry.name.as_str()).collect();
    assert_eq!(names, ["Emote", "Hat", "Wink"]);
    assert!(table.entry_list().iter().all(|entry| entry.source == ParameterSource::Declared));
    assert_eq!(table.entry_list()[1].at, at(2));
}

#[test]
fn a_duplicate_parameter_is_reported_at_the_second_declaration() {
    let mut table = declared(&[("Emote", AnimatorParameterType::Int, 1)]);
    let error = table.declare(&"Emote".to_string(), AnimatorParameterType::Float, None, &at(2)).unwrap_err();
    assert_eq!(error, TransformErrorKind::DuplicateParameter { name: "Emote".into() }.at(at(2)));
    assert_eq!(table.entry_list().len(), 1);
    assert_eq!(table.resolve(&Unresolved::new("Emote".to_owned())).unwrap().context, AnimatedValueType::Int);
}

#[test]
fn a_parameter_may_not_shadow_a_provided_one() {
    let mut declared_first = declared(&[("GestureLeft", AnimatorParameterType::Int, 1)]);
    assert_eq!(
        declared_first.provide(&"GestureLeft".to_string(), AnimatorParameterType::Int).unwrap_err(),
        TransformErrorKind::ParameterCollidesWithProvided { name: "GestureLeft".into() }.at(at(1))
    );

    let mut provided_first = ParameterTable::new();
    provided_first.provide(&"GestureLeft".to_string(), AnimatorParameterType::Int).unwrap();
    assert_eq!(
        provided_first.declare(&"GestureLeft".to_string(), AnimatorParameterType::Int, None, &at(1)).unwrap_err(),
        TransformErrorKind::ParameterCollidesWithProvided { name: "GestureLeft".into() }.at(at(1))
    );
    assert_eq!(provided_first.entry_list()[0].source, ParameterSource::Provided);
}

#[test]
fn a_provided_parameter_is_not_provided_twice() {
    let mut table = ParameterTable::new();
    table.provide(&"AFK".to_string(), AnimatorParameterType::Bool).unwrap();
    assert_eq!(
        table.provide(&"AFK".to_string(), AnimatorParameterType::Bool).unwrap_err(),
        TransformError::new(TransformErrorKind::ParameterCollidesWithProvided { name: "AFK".into() })
    );
}

#[test]
fn an_unknown_parameter_is_reported_where_it_was_referenced() {
    let table = ParameterTable::new();
    let error = table.resolve(&Unresolved::located("Emote".to_owned(), at(4).unwrap())).unwrap_err();
    assert_eq!(error, TransformErrorKind::UnknownParameter { name: "Emote".into() }.at(at(4)));
}

#[test]
fn a_typed_lookup_rejects_the_wrong_type() {
    let table = declared(&[("Emote", AnimatorParameterType::Int, 1)]);
    let error = table
        .resolve_typed(&Unresolved::located("Emote".to_owned(), at(4).unwrap()), AnimatedValueType::Bool)
        .unwrap_err();
    assert_eq!(
        error,
        TransformErrorKind::ParameterTypeMismatch {
            name: "Emote".into(),
            expected: AnimatedValueType::Bool,
            found: AnimatedValueType::Int,
        }
        .at(at(4))
    );
    assert_eq!(
        table.resolve_typed(&Unresolved::new("Emote".to_owned()), AnimatedValueType::Int).unwrap(),
        Resolved::new("Emote".to_owned(), AnimatedValueType::Int)
    );
}

#[test]
fn a_generated_parameter_may_not_take_a_declared_name() {
    let mut table = declared(&[("Face/Wink", AnimatorParameterType::Float, 1)]);
    assert_eq!(
        table.generate("Face/Wink".into(), AnimatorParameterType::Float, None).unwrap_err(),
        TransformError::new(TransformErrorKind::GeneratedParameterCollision { name: "Face/Wink".into() })
    );
    let generated = table.generate("Face/Brow".into(), AnimatorParameterType::Float, None).unwrap();
    assert_eq!(generated, Resolved::new("Face/Brow".to_owned(), AnimatedValueType::Float));
    assert_eq!(
        table.declare(&"Face/Brow".to_string(), AnimatorParameterType::Float, None, &at(5)).unwrap_err(),
        TransformErrorKind::GeneratedParameterCollision { name: "Face/Brow".into() }.at(at(5))
    );
}

fn shape(path: &str, name: &str, line: u32) -> AnimatedTarget<Declared> {
    AnimatedTarget::Renderer(AnimatedRendererTarget {
        path: Unresolved::located(path.into(), at(line).unwrap()),
        renderer_type: "UnityEngine.SkinnedMeshRenderer".into(),
        property: AnimatedRendererProperty::BlendShape { name: name.into() },
    })
}

#[test]
fn paths_are_interned_once_and_remember_every_line() {
    let mut externals = Externals::new();
    let parameters = ParameterTable::new();
    let first = compile_target(&mut externals, &parameters, &shape("Face", "smile", 3)).unwrap();
    let second = compile_target(&mut externals, &parameters, &shape("Face", "angry", 5)).unwrap();
    let other = compile_target(
        &mut externals,
        &parameters,
        &AnimatedTarget::GameObject(AnimatedGameObjectTarget {
            path: Unresolved::located("Hat".into(), at(7).unwrap()),
            property: AnimatedGameObjectProperty::Active,
        }),
    )
    .unwrap();

    let (AnimatedTarget::Renderer(first), AnimatedTarget::Renderer(second), AnimatedTarget::GameObject(other)) =
        (first, second, other)
    else {
        panic!("target kinds should be kept");
    };
    assert_eq!(first.path, second.path);
    assert_ne!(first.path, other.path);
    assert_eq!(first.property, AnimatedRendererProperty::BlendShape { name: "smile".into() });
    assert_eq!(first.renderer_type, "UnityEngine.SkinnedMeshRenderer");
    assert_eq!(externals.object_paths.len(), 2);
    assert_eq!(externals.object_paths.get(first.path).referenced_at, vec![at(3).unwrap(), at(5).unwrap()]);
    assert_eq!(externals.object_paths.get(other.path).value, "Hat");
}

#[test]
fn components_intern_their_type_as_well() {
    let mut externals = Externals::new();
    let target = compile_target(
        &mut externals,
        &ParameterTable::new(),
        &AnimatedTarget::Component(AnimatedComponentTarget {
            path: Unresolved::new("Root".into()),
            component_type: Unresolved::located("UnityEngine.Light".into(), at(2).unwrap()),
            property: AnimatedComponentProperty::Enabled,
            value_type: AnimatedValueType::Bool,
        }),
    )
    .unwrap();

    let AnimatedTarget::Component(component) = target else {
        panic!("a component should stay a component");
    };
    assert_eq!(externals.component_types.get(component.component_type).value, "UnityEngine.Light");
    assert_eq!(externals.component_types.get(component.component_type).referenced_at, vec![at(2).unwrap()]);
    assert_eq!(externals.object_paths.get(component.path).value, "Root");
    assert!(externals.object_paths.get(component.path).referenced_at.is_empty());
    assert_eq!(component.value_type, AnimatedValueType::Bool);
}

#[test]
fn an_animator_parameter_target_resolves_a_float_parameter() {
    let mut externals = Externals::new();
    let parameters = declared(&[("Blend", AnimatorParameterType::Float, 1), ("Count", AnimatorParameterType::Int, 2)]);
    let target = compile_target(
        &mut externals,
        &parameters,
        &AnimatedTarget::AnimatorSelf(AnimatedAnimatorTarget {
            property: AnimatedAnimatorProperty::ParameterFloatValue { name: Unresolved::new("Blend".into()) },
        }),
    )
    .unwrap();

    assert_eq!(
        target,
        AnimatedTarget::AnimatorSelf(AnimatedAnimatorTarget {
            property: AnimatedAnimatorProperty::ParameterFloatValue {
                name: Resolved::new("Blend".into(), AnimatedValueType::Float),
            },
        })
    );

    let error = compile_target(
        &mut externals,
        &parameters,
        &AnimatedTarget::AnimatorSelf(AnimatedAnimatorTarget {
            property: AnimatedAnimatorProperty::ParameterFloatValue {
                name: Unresolved::located("Missing".into(), at(9).unwrap()),
            },
        }),
    )
    .unwrap_err();
    assert_eq!(error, TransformErrorKind::UnknownParameter { name: "Missing".into() }.at(at(9)));

    let error = compile_target(
        &mut externals,
        &parameters,
        &AnimatedTarget::AnimatorSelf(AnimatedAnimatorTarget {
            property: AnimatedAnimatorProperty::ParameterFloatValue {
                name: Unresolved::located("Count".into(), at(10).unwrap()),
            },
        }),
    )
    .unwrap_err();
    assert_eq!(
        error,
        TransformErrorKind::ParameterTypeMismatch {
            name: "Count".into(),
            expected: AnimatedValueType::Float,
            found: AnimatedValueType::Int,
        }
        .at(at(10))
    );
    assert!(externals.object_paths.is_empty());
}

#[test]
fn expression_parameters_follow_scope_and_save() {
    assert_eq!(
        expression_entry(&"Synced".to_string(), AnimatorParameterType::Int, Some(4), None, Some(true)),
        Some(ExpressionEntry {
            name: "Synced".into(),
            value_type: AnimatorParameterType::Int,
            width: Some(4),
            saved: true,
            synced: true,
        })
    );
    assert_eq!(
        expression_entry(&"Local".to_string(), AnimatorParameterType::Bool, Some(4), Some(ParameterScope::Local), None),
        Some(ExpressionEntry {
            name: "Local".into(),
            value_type: AnimatorParameterType::Bool,
            width: None,
            saved: false,
            synced: false,
        })
    );
    assert_eq!(
        expression_entry(&"Internal".to_string(), AnimatorParameterType::Float, None, Some(ParameterScope::Internal), Some(true)),
        None
    );
}

fn declared_int(name: &str, line: u32) -> ParameterOutline {
    ParameterOutline::Primitive { name: name.into(), value_type: AnimatorParameterType::Int, default: None, at: at(line) }
}

fn gestures() -> ParameterOutline {
    ParameterOutline::Provided {
        group: ProvidedParameterGroup::Vrchat,
        parameters: vec![
            ("GestureLeft".to_string(), AnimatorParameterType::Int),
            ("AFK".to_string(), AnimatorParameterType::Bool),
        ],
    }
}

#[test]
fn the_first_pass_records_every_parameter_entry() {
    let (table, errors) = collect_parameters(&[declared_int("Emote", 1), gestures()]);
    assert!(errors.is_empty(), "{errors:?}");
    let names: Vec<&str> = table.entry_list().iter().map(|entry| entry.name.as_str()).collect();
    assert_eq!(names, ["Emote", "GestureLeft", "AFK"]);
    assert_eq!(table.entry_list()[1].source, ParameterSource::Provided);
    assert_eq!(table.resolve(&Unresolved::new("AFK".to_owned())).unwrap().context, AnimatedValueType::Bool);
}

#[test]
fn every_bad_parameter_entry_is_reported_in_order() {
    let (_, errors) = collect_parameters(&[declared_int("Emote", 1), declared_int("Emote", 2), declared_int("GestureLeft", 3), gestures()]);
    assert_eq!(
        errors,
        vec![
            TransformErrorKind::DuplicateParameter { name: "Emote".into() }.at(at(2)),
            TransformErrorKind::ParameterCollidesWithProvided { name: "GestureLeft".into() }.at(at(3)),
        ]
    );

    let (_, provided_first) = collect_parameters(&[gestures(), declared_int("GestureLeft", 1)]);
    assert_eq!(
        provided_first,
        vec![TransformErrorKind::ParameterCollidesWithProvided { name: "GestureLeft".into() }.at(at(1))]
    );
}

#[test]
fn a_provided_group_is_declared_once() {
    let (table, errors) = collect_parameters(&[gestures(), gestures()]);
    assert_eq!(errors, vec![TransformError::new(TransformErrorKind::DuplicateProvidedGroup { group: "VRChat".into() })]);
    assert_eq!(table.entry_list().len(), 2);
}

#[test]
fn declared_and_generated_parameters_keep_their_defaults() {
    let mut table = ParameterTable::new();
    table.declare(&"Emote".to_string(), AnimatorParameterType::Int, Some(ParameterDefault::Int(3)), &at(1)).unwrap();
    table.generate("Face/Open".into(), AnimatorParameterType::Float, Some(ParameterDefault::Float(0.5f64.to_bits()))).unwrap();
    table.provide(&"GestureLeft".to_string(), AnimatorParameterType::Int).unwrap();
    let entries = table.entry_list();
    assert_eq!(entries[0].default, Some(ParameterDefault::Int(3)));
    assert_eq!(entries[1].default, Some(ParameterDefault::Float(0.5f64.to_bits())));
    assert_eq!(entries[2].default, None);
}
