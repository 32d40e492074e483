use declavatar2::layers::{
    driver, kind_mismatch, weight_parameter, LayerInfo, LayerOutline, LayerTable, OptionOutline, PuppetOutline,
};
use declavatar2::declaration::SwitchSource;
use declavatar2::first_pass::collect;
use declavatar2::parameters::ParameterOutline;
use declavatar2::resolution::{SourceLocation, Unresolved};
use declavatar2::value::AnimatorParameterType;
use declavatar2::transform_error::TransformErrorKind;

fn at(line: u32) -> Option<SourceLocation> {
    Some(SourceLocation { chunk: "avatar.lua".into(), line })
}

fn group(name: &str, driven_by: Option<&str>, options: &[&str], line: u32) -> LayerOutline {
    LayerOutline::Group {
        name: name.into(),
        driven_by: driven_by.map(|parameter| Unresolved::new(parameter.to_owned())),
        options: options.iter().map(|option| OptionOutline { name: (*option).into(), at: None }).collect(),
        at: at(line),
    }
}

fn puppet(name: &str, line: u32) -> PuppetOutline {
    PuppetOutline { name: name.into(), driven_by: None, at: at(line) }
}

#[test]
fn layers_are_recorded_with_what_drives_them() {
    let (table, errors) = LayerTable::collect(&vec![
        group("Expressions", Some("Emote"), &["smile", "angry"], 10),
        LayerOutline::Switch { name: "Hat".into(), source: None, at: at(11) },
        LayerOutline::Blend { name: "Face".into(), puppets: vec![puppet("Wink", 13), puppet("Brow", 14)], at: at(12) },
    ]);

    assert!(errors.is_empty(), "{errors:?}");
    assert_eq!(
        table.get("Expressions"),
        Some(&LayerInfo::Group {
            parameter: Unresolved::new("Emote".to_owned()),
            options: vec![("smile".into(), 1), ("angry".into(), 2)],
        })
    );
    let Some(LayerInfo::Switch { parameter }) = table.get("Hat") else {
        panic!("a switch layer should be recorded as one");
    };
    assert_eq!(parameter.value, "Hat");
    assert_eq!(parameter.at, at(11));
    assert_eq!(table.get("Face"), Some(&LayerInfo::Blend));
    let Some(LayerInfo::Puppet { parameter }) = table.get("Wink") else {
        panic!("a puppet of a blend should be recorded as a puppet layer");
    };
    assert_eq!(parameter.value, "Wink");
    assert_eq!(parameter.at, at(13));
    assert!(table.get("Brow").is_some());
    assert!(table.get("Nothing").is_none());
}

#[test]
fn a_duplicate_layer_is_reported_at_the_second_declaration() {
    let (_, errors) = LayerTable::collect(&vec![group("A", None, &[], 1), group("A", None, &[], 2)]);

    assert_eq!(errors, vec![TransformErrorKind::DuplicateLayer { name: "A".into() }.at(at(2))]);
}

#[test]
fn a_duplicate_option_is_reported() {
    let (table, errors) = LayerTable::collect(&vec![group("A", None, &["x", "x"], 1)]);

    assert_eq!(
        errors,
        vec![TransformErrorKind::DuplicateOption { layer: "A".into(), option: "x".into() }.at(at(1))]
    );
    assert!(table.get("A").is_none());
}

#[test]
fn a_duplicate_option_points_at_its_own_line_when_it_has_one() {
    let layer = LayerOutline::Group {
        name: "A".into(),
        driven_by: None,
        options: vec![
            OptionOutline { name: "x".into(), at: at(2) },
            OptionOutline { name: "y".into(), at: at(3) },
            OptionOutline { name: "x".into(), at: at(4) },
            OptionOutline { name: "y".into(), at: at(5) },
        ],
        at: at(1),
    };
    let (_, errors) = LayerTable::collect(&vec![layer]);
    assert_eq!(
        errors,
        vec![TransformErrorKind::DuplicateOption { layer: "A".into(), option: "x".into() }.at(at(4))]
    );
}

#[test]
fn collecting_keeps_going_after_an_error() {
    let (table, errors) = LayerTable::collect(&vec![
        group("A", None, &["x", "x"], 1),
        LayerOutline::Raw { name: "B".into(), at: at(2) },
        LayerOutline::Puppet(puppet("B", 3)),
        LayerOutline::Switch { name: "C".into(), source: Some(SwitchSource::Parameter(Unresolved::located("Flag".into(), at(9).unwrap()))), at: at(4) },
    ]);
    assert_eq!(
        errors,
        vec![
            TransformErrorKind::DuplicateOption { layer: "A".into(), option: "x".into() }.at(at(1)),
            TransformErrorKind::DuplicateLayer { name: "B".into() }.at(at(3)),
        ]
    );
    assert_eq!(table.get("B"), Some(&LayerInfo::Raw));
    let Some(LayerInfo::Switch { parameter }) = table.get("C") else {
        panic!("the switch after the errors should still be recorded");
    };
    assert_eq!(parameter.value, "Flag");
    assert_eq!(parameter.at, at(9));
}

#[test]
fn a_blend_keeps_the_puppets_before_the_one_that_collides() {
    let (table, errors) = LayerTable::collect(&vec![
        LayerOutline::Raw { name: "Brow".into(), at: at(1) },
        LayerOutline::Blend {
            name: "Face".into(),
            puppets: vec![puppet("Wink", 3), puppet("Brow", 4), puppet("Mouth", 5)],
            at: at(2),
        },
    ]);
    assert_eq!(errors, vec![TransformErrorKind::DuplicateLayer { name: "Brow".into() }.at(at(4))]);
    assert_eq!(table.get("Face"), Some(&LayerInfo::Blend));
    assert!(table.get("Wink").is_some());
    assert_eq!(table.get("Brow"), Some(&LayerInfo::Raw));
    assert!(table.get("Mouth").is_none());
}

#[test]
fn a_layer_reference_is_looked_up_by_name() {
    let (table, _) = LayerTable::collect(&vec![group("Expressions", None, &["smile"], 1)]);
    let found = table.layer(&Unresolved::located("Expressions".into(), at(7).unwrap())).unwrap();
    assert_eq!(found.kind(), "group");
    let missing = table.layer(&Unresolved::located("Missing".into(), at(8).unwrap())).unwrap_err();
    assert_eq!(missing, TransformErrorKind::UnknownLayer { name: "Missing".into() }.at(at(8)));
}

#[test]
fn registering_a_taken_name_is_refused() {
    let mut table = LayerTable::new();
    let name = String::from("Hat");
    assert!(table.register(&name, LayerInfo::Raw, None).is_ok());
    let location = at(6).unwrap();
    assert_eq!(
        table.register(&name, LayerInfo::Blend, Some(&location)).unwrap_err(),
        TransformErrorKind::DuplicateLayer { name: "Hat".into() }.at(at(6))
    );
    assert_eq!(table.get("Hat"), Some(&LayerInfo::Raw));
}

#[test]
fn each_layer_kind_has_its_word() {
    let parameter = Unresolved::new("P".to_owned());
    assert_eq!(LayerInfo::Group { parameter: parameter.clone(), options: vec![] }.kind(), "group");
    assert_eq!(LayerInfo::Switch { parameter: parameter.clone() }.kind(), "switch");
    assert_eq!(LayerInfo::Puppet { parameter }.kind(), "puppet");
    assert_eq!(LayerInfo::Blend.kind(), "blend");
    assert_eq!(LayerInfo::Raw.kind(), "raw");
}

#[test]
fn a_driver_defaults_to_the_layer_name_where_the_layer_was_written() {
    let location = at(5).unwrap();
    let defaulted = driver(None, "Hat", Some(&location));
    assert_eq!(defaulted.value, "Hat");
    assert_eq!(defaulted.at, at(5));

    let written = Unresolved::located("Toggle".to_owned(), at(6).unwrap());
    let named = driver(Some(&written), "Hat", Some(&location));
    assert_eq!(named.value, "Toggle");
    assert_eq!(named.at, at(6));

    assert_eq!(driver(None, "Hat", None).at, None);
}

#[test]
fn a_blend_child_is_weighted_by_a_parameter_under_the_blend() {
    assert_eq!(weight_parameter("Face", "Wink"), "Face/Wink");
    assert_eq!(weight_parameter("", ""), "/");
}

#[test]
fn a_kind_mismatch_names_both_kinds() {
    let reference = Unresolved::located("Hat".to_owned(), at(3).unwrap());
    let error = kind_mismatch(&reference, "group", &LayerInfo::Switch { parameter: reference.clone() });
    assert_eq!(
        error,
        TransformErrorKind::LayerKindMismatch { name: "Hat".into(), expected: "group", found: "switch" }.at(at(3))
    );
    assert_eq!(error.message(), "avatar.lua:3: layer `Hat` is a switch layer, but a group layer is needed here");
}

#[test]
fn the_first_pass_reports_parameter_errors_before_layer_errors() {
    let parameters = [
        ParameterOutline::Primitive { name: "Emote".into(), value_type: AnimatorParameterType::Int, default: None, at: at(1) },
        ParameterOutline::Primitive { name: "Emote".into(), value_type: AnimatorParameterType::Int, default: None, at: at(2) },
    ];
    let layers = vec![
        LayerOutline::Switch { name: "Hat".into(), source: None, at: at(10) },
        LayerOutline::Switch { name: "Hat".into(), source: None, at: at(11) },
    ];
    let collected = collect(&parameters, &layers);
    assert_eq!(collected.parameters.entry_list().len(), 1);
    assert!(collected.layers.get("Hat").is_some());
    assert_eq!(collected.errors.len(), 2);
    assert_eq!(collected.errors[0], TransformErrorKind::DuplicateParameter { name: "Emote".into() }.at(at(2)));
    assert_eq!(collected.errors[1].at, at(11));
}
