use declavatar2::declaration::SwitchSource;
use declavatar2::first_pass::collect;
use declavatar2::animated_wire::WireValue;
use declavatar2::drives::{
    drive, drive_group, drive_parameter, drive_puppet, drive_switch, DriveOutline, DriveTarget, DrivenValue,
};
use declavatar2::layers::{LayerOutline, LayerTable, OptionOutline, PuppetOutline};
use declavatar2::parameters::{ParameterOutline, ParameterTable};
use declavatar2::resolution::{Resolved, SourceLocation, Unresolved};
use declavatar2::transform_error::TransformErrorKind;
use declavatar2::value::{AnimatedValueType, AnimatorParameterType};

fn at(line: u32) -> SourceLocation {
    SourceLocation { chunk: "avatar.lua".into(), line }
}

fn located(name: &str, line: u32) -> Unresolved<String> {
    Unresolved::located(name.to_owned(), at(line))
}

fn context() -> (LayerTable, ParameterTable) {
    let mut parameters = ParameterTable::new();
    for (name, value_type) in [
        ("Emote", AnimatorParameterType::Int),
        ("Hat", AnimatorParameterType::Bool),
        ("Wink", AnimatorParameterType::Float),
        ("Weight", AnimatorParameterType::Float),
    ] {
        parameters.declare(&name.to_owned(), value_type, None, &None).unwrap();
    }
    let (layers, errors) = LayerTable::collect(&vec![
        LayerOutline::Group {
            name: "Expressions".into(),
            driven_by: Some(Unresolved::new("Emote".to_owned())),
            options: ["smile", "angry"].map(|name| OptionOutline { name: name.into(), at: None }).into(),
            at: None,
        },
        LayerOutline::Switch {
            name: "Hat".into(),
            source: Some(SwitchSource::Parameter(Unresolved::new("Hat".to_owned()))),
            at: None,
        },
        LayerOutline::Puppet(PuppetOutline { name: "Wink".into(), driven_by: None, at: None }),
        LayerOutline::Puppet(PuppetOutline { name: "Loose".into(), driven_by: None, at: None }),
        LayerOutline::Group { name: "Counted".into(), driven_by: Some(Unresolved::new("Weight".to_owned())), options: vec![OptionOutline { name: "one".into(), at: None }], at: None },
    ]);
    assert!(errors.is_empty(), "{errors:?}");
    (layers, parameters)
}

fn resolved(name: &str, value_type: AnimatedValueType) -> Resolved<String, AnimatedValueType> {
    Resolved::new(name.into(), value_type)
}

#[test]
fn drives_resolve_to_a_parameter_and_a_value() {
    let (layers, parameters) = context();
    assert_eq!(
        drive_group(&layers, &parameters, &Unresolved::new("Expressions".to_owned()), &"angry".to_owned()).unwrap(),
        (resolved("Emote", AnimatedValueType::Int), 2)
    );
    assert_eq!(
        drive_group(&layers, &parameters, &Unresolved::new("Expressions".to_owned()), &"smile".to_owned()).unwrap(),
        (resolved("Emote", AnimatedValueType::Int), 1)
    );
    assert_eq!(
        drive_puppet(&layers, &parameters, &Unresolved::new("Wink".to_owned())).unwrap(),
        resolved("Wink", AnimatedValueType::Float)
    );
}

#[test]
fn a_bad_drive_is_reported_where_it_was_written() {
    let (layers, parameters) = context();
    assert_eq!(
        drive_puppet(&layers, &parameters, &located("Missing", 3)).unwrap_err(),
        TransformErrorKind::UnknownLayer { name: "Missing".into() }.at(Some(at(3)))
    );
    assert_eq!(
        drive_group(&layers, &parameters, &located("Hat", 3), &"on".to_owned()).unwrap_err(),
        TransformErrorKind::LayerKindMismatch { name: "Hat".into(), expected: "group", found: "switch" }.at(Some(at(3)))
    );
    assert_eq!(
        drive_group(&layers, &parameters, &located("Expressions", 3), &"sad".to_owned()).unwrap_err(),
        TransformErrorKind::UnknownOption { layer: "Expressions".into(), option: "sad".into() }.at(Some(at(3)))
    );
    assert_eq!(
        drive_puppet(&layers, &parameters, &located("Expressions", 3)).unwrap_err(),
        TransformErrorKind::LayerKindMismatch { name: "Expressions".into(), expected: "puppet", found: "group" }.at(Some(at(3)))
    );
}

#[test]
fn a_drive_needs_the_layer_parameter_to_be_declared_with_its_type() {
    let (layers, parameters) = context();
    let error = drive_puppet(&layers, &parameters, &located("Loose", 3)).unwrap_err();
    assert_eq!(error.kind, TransformErrorKind::UnknownParameter { name: "Loose".into() });
    assert_eq!(
        drive_group(&layers, &parameters, &located("Counted", 3), &"one".to_owned()).unwrap_err(),
        TransformErrorKind::ParameterTypeMismatch {
            name: "Weight".into(),
            expected: AnimatedValueType::Int,
            found: AnimatedValueType::Float,
        }
        .at(None)
    );
}

#[test]
fn every_kind_of_drive_names_what_it_sets() {
    let (layers, parameters) = context();
    let cases = [
        (
            DriveOutline::Group { layer: Unresolved::new("Expressions".to_owned()), option: "angry".into() },
            DriveTarget::Option(resolved("Emote", AnimatedValueType::Int), 2),
        ),
        (
            DriveOutline::Switch { layer: Unresolved::new("Hat".to_owned()), value: None },
            DriveTarget::Flag(resolved("Hat", AnimatedValueType::Bool), true),
        ),
        (
            DriveOutline::Switch { layer: Unresolved::new("Hat".to_owned()), value: Some(false) },
            DriveTarget::Flag(resolved("Hat", AnimatedValueType::Bool), false),
        ),
        (
            DriveOutline::Puppet { layer: Unresolved::new("Wink".to_owned()), value: None },
            DriveTarget::Puppet(resolved("Wink", AnimatedValueType::Float), 1.0f64.to_bits()),
        ),
        (
            DriveOutline::Puppet { layer: Unresolved::new("Wink".to_owned()), value: Some(0.25f64.to_bits()) },
            DriveTarget::Puppet(resolved("Wink", AnimatedValueType::Float), 0.25f64.to_bits()),
        ),
        (
            DriveOutline::Parameter { parameter: Unresolved::new("Emote".to_owned()), value: WireValue::Int(4) },
            DriveTarget::Written(resolved("Emote", AnimatedValueType::Int), DrivenValue::Exact(WireValue::Int(4))),
        ),
        (
            DriveOutline::Parameter { parameter: Unresolved::new("Emote".to_owned()), value: WireValue::Bool(true) },
            DriveTarget::Written(resolved("Emote", AnimatedValueType::Int), DrivenValue::Exact(WireValue::Int(1))),
        ),
        (
            DriveOutline::Parameter { parameter: Unresolved::new("Weight".to_owned()), value: WireValue::Bool(true) },
            DriveTarget::Written(
                resolved("Weight", AnimatedValueType::Float),
                DrivenValue::Exact(WireValue::Float(1.0f64.to_bits())),
            ),
        ),
        (
            DriveOutline::Parameter { parameter: Unresolved::new("Hat".to_owned()), value: WireValue::Int(7) },
            DriveTarget::Written(resolved("Hat", AnimatedValueType::Bool), DrivenValue::Exact(WireValue::Bool(true))),
        ),
        (
            DriveOutline::Parameter { parameter: Unresolved::new("Hat".to_owned()), value: WireValue::Int(0) },
            DriveTarget::Written(resolved("Hat", AnimatedValueType::Bool), DrivenValue::Exact(WireValue::Bool(false))),
        ),
        (
            DriveOutline::Parameter { parameter: Unresolved::new("Hat".to_owned()), value: WireValue::Bool(false) },
            DriveTarget::Written(resolved("Hat", AnimatedValueType::Bool), DrivenValue::Exact(WireValue::Bool(false))),
        ),
        (
            DriveOutline::Parameter { parameter: Unresolved::new("Weight".to_owned()), value: WireValue::Int(3) },
            DriveTarget::Written(resolved("Weight", AnimatedValueType::Float), DrivenValue::IntAsFloat(3)),
        ),
    ];
    for (requested, expected) in cases {
        assert_eq!(drive(&layers, &parameters, &requested).unwrap(), expected);
    }
}

#[test]
fn a_bad_switch_or_parameter_drive_is_reported_where_it_was_written() {
    let (layers, parameters) = context();
    assert_eq!(
        drive_switch(&layers, &parameters, &located("Missing", 3)).unwrap_err(),
        TransformErrorKind::UnknownLayer { name: "Missing".into() }.at(Some(at(3)))
    );
    assert_eq!(
        drive_switch(&layers, &parameters, &located("Wink", 3)).unwrap_err(),
        TransformErrorKind::LayerKindMismatch { name: "Wink".into(), expected: "switch", found: "puppet" }.at(Some(at(3)))
    );
    assert_eq!(
        drive_parameter(&parameters, &located("Missing", 3), AnimatedValueType::Bool).unwrap_err(),
        TransformErrorKind::UnknownParameter { name: "Missing".into() }.at(Some(at(3)))
    );
    assert_eq!(
        drive_parameter(&parameters, &located("Hat", 3), AnimatedValueType::Vector2).unwrap_err(),
        TransformErrorKind::ValueTypeMismatch { expected: AnimatedValueType::Bool, found: AnimatedValueType::Vector2 }
            .at(Some(at(3)))
    );
    assert_eq!(
        drive(&layers, &parameters, &DriveOutline::Switch { layer: located("Expressions", 4), value: None }).unwrap_err(),
        TransformErrorKind::LayerKindMismatch { name: "Expressions".into(), expected: "switch", found: "group" }
            .at(Some(at(4)))
    );
}

#[test]
fn a_float_is_never_driven_into_an_int_or_a_bool() {
    let (_, parameters) = context();
    assert_eq!(
        drive_parameter(&parameters, &located("Emote", 5), AnimatedValueType::Float).unwrap_err(),
        TransformErrorKind::ValueTypeMismatch { expected: AnimatedValueType::Int, found: AnimatedValueType::Float }
            .at(Some(at(5)))
    );
    assert!(drive_parameter(&parameters, &located("Hat", 5), AnimatedValueType::Int).is_ok());
    assert_eq!(
        drive_parameter(&parameters, &located("Hat", 5), AnimatedValueType::Float).unwrap_err(),
        TransformErrorKind::ValueTypeMismatch { expected: AnimatedValueType::Bool, found: AnimatedValueType::Float }
            .at(Some(at(5)))
    );
    assert!(drive_parameter(&parameters, &located("Emote", 5), AnimatedValueType::Bool).is_ok());
}

#[test]
fn a_gated_switch_drives_the_gate_parameter() {
    let collected = collect(
        &[
            ParameterOutline::Primitive { name: "Hat".into(), value_type: AnimatorParameterType::Bool, default: None, at: None },
            ParameterOutline::Gate { name: "HatShown".into(), at: None },
        ],
        &vec![
            LayerOutline::Switch {
                name: "Hat".into(),
                source: Some(SwitchSource::Parameter(Unresolved::new("Hat".to_owned()))),
                at: None,
            },
            LayerOutline::Switch {
                name: "Gated".into(),
                source: Some(SwitchSource::Gate(Unresolved::new("HatShown".to_owned()))),
                at: None,
            },
        ],
    );
    assert!(collected.errors.is_empty(), "{:?}", collected.errors);
    assert_eq!(
        drive_switch(&collected.layers, &collected.parameters, &located("Gated", 3)).unwrap(),
        resolved("HatShown", AnimatedValueType::Bool)
    );
    assert_eq!(
        drive_switch(&collected.layers, &collected.parameters, &located("Hat", 3)).unwrap(),
        resolved("Hat", AnimatedValueType::Bool)
    );
}
