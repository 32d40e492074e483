use declavatar2::controller::MenuAxis;
use declavatar2::layers::{LayerOutline, LayerTable, OptionOutline, PuppetOutline};
use declavatar2::drives::{DriveOutline, DriveTarget};
use declavatar2::menu_pass::{
    check_menu_size, compile_axis, compile_item, compile_menu, compile_menu_items, AxisOutline, AxisTarget, MenuEntry,
    MenuItemOutline, MENU_CAPACITY,
};
use declavatar2::parameters::ParameterTable;
use declavatar2::resolution::{Resolved, SourceLocation, Unresolved};
use declavatar2::transform_error::{TransformError, TransformErrorKind};
use declavatar2::value::{AnimatedValueType, AnimatorParameterType};

fn located_at(line: u32) -> Option<SourceLocation> {
    Some(SourceLocation { chunk: "avatar.lua".into(), line })
}

fn context() -> (LayerTable, ParameterTable) {
    let mut parameters = ParameterTable::new();
    for (name, value_type) in [
        ("Emote", AnimatorParameterType::Int),
        ("Hat", AnimatorParameterType::Bool),
        ("Wink", AnimatorParameterType::Float),
        ("Move", AnimatorParameterType::Float),
    ] {
        parameters.declare(&name.to_owned(), value_type, None, &None).unwrap();
    }
    let (layers, errors) = LayerTable::collect(&vec![
        LayerOutline::Group {
            name: "Expressions".into(),
            driven_by: Some(Unresolved::new("Emote".to_owned())),
            options: vec![OptionOutline { name: "smile".into(), at: None }],
            at: None,
        },
        LayerOutline::Switch { name: "Hat".into(), source: None, at: None },
        LayerOutline::Puppet(PuppetOutline { name: "Wink".into(), driven_by: None, at: None }),
    ]);
    assert!(errors.is_empty(), "{errors:?}");
    (layers, parameters)
}

fn bare(target: AxisTarget) -> AxisOutline {
    AxisOutline { target, positive: None, negative: None }
}

fn resolved(name: &str, value_type: AnimatedValueType) -> Resolved<String, AnimatedValueType> {
    Resolved::new(name.into(), value_type)
}

#[test]
fn controls_resolve_their_drives_and_axes() {
    let (layers, parameters) = context();
    let wink = compile_axis(&layers, &parameters, &bare(AxisTarget::PuppetLayer(Unresolved::new("Wink".into())))).unwrap();
    assert_eq!(wink, MenuAxis { parameter: resolved("Wink", AnimatedValueType::Float), positive: None, negative: None });

    let horizontal = AxisOutline {
        target: AxisTarget::Parameter(Unresolved::new("Move".into())),
        positive: Some("Right".into()),
        negative: Some("Left".into()),
    };
    assert_eq!(
        compile_axis(&layers, &parameters, &horizontal).unwrap(),
        MenuAxis {
            parameter: resolved("Move", AnimatedValueType::Float),
            positive: Some("Right".into()),
            negative: Some("Left".into()),
        }
    );
}

#[test]
fn a_four_axis_control_names_every_direction() {
    let (layers, parameters) = context();
    let axis = |name: &str| AxisOutline {
        target: AxisTarget::Parameter(Unresolved::new("Move".into())),
        positive: Some(name.into()),
        negative: None,
    };
    let labels: Vec<String> = ["U", "D", "L", "R"]
        .iter()
        .map(|name| compile_axis(&layers, &parameters, &axis(name)).unwrap().positive.unwrap())
        .collect();
    assert_eq!(labels, ["U", "D", "L", "R"]);
}

#[test]
fn a_bad_axis_is_reported() {
    let (layers, parameters) = context();
    let cases = vec![
        (
            AxisTarget::Parameter(Unresolved::located("Emote".into(), located_at(3).unwrap())),
            TransformErrorKind::ParameterTypeMismatch {
                name: "Emote".into(),
                expected: AnimatedValueType::Float,
                found: AnimatedValueType::Int,
            },
        ),
        (AxisTarget::OtherDrive { at: located_at(3) }, TransformErrorKind::InvalidAxis),
        (
            AxisTarget::PuppetLayer(Unresolved::located("Hat".into(), located_at(3).unwrap())),
            TransformErrorKind::LayerKindMismatch { name: "Hat".into(), expected: "puppet", found: "switch" },
        ),
        (
            AxisTarget::PuppetLayer(Unresolved::located("Missing".into(), located_at(3).unwrap())),
            TransformErrorKind::UnknownLayer { name: "Missing".into() },
        ),
    ];
    for (target, expected) in cases {
        assert_eq!(compile_axis(&layers, &parameters, &bare(target)).unwrap_err(), expected.at(located_at(3)));
    }
}

#[test]
fn a_menu_holds_eight_controls_at_most() {
    assert_eq!(MENU_CAPACITY, 8);
    assert_eq!(check_menu_size("Sub", 8), None);
    assert_eq!(check_menu_size("Sub", 0), None);
    assert_eq!(
        check_menu_size("Sub", 9),
        Some(TransformError::new(TransformErrorKind::MenuTooLarge { name: "Sub".into(), count: 9, capacity: 8 }))
    );
}

fn run(items: Vec<MenuItemOutline>) -> (Vec<MenuEntry>, Vec<TransformError>) {
    let (layers, parameters) = context();
    let mut errors = Vec::new();
    let compiled = compile_menu(&layers, &parameters, &items, &mut errors);
    (compiled, errors)
}

fn hat_toggle() -> MenuItemOutline {
    MenuItemOutline::Toggle {
        name: "Hat".into(),
        drive: DriveOutline::Switch { layer: Unresolved::new("Hat".to_owned()), value: None },
    }
}

fn missing_toggle(line: u32) -> MenuItemOutline {
    MenuItemOutline::Toggle {
        name: "Bad".into(),
        drive: DriveOutline::Switch {
            layer: Unresolved::located("Missing".into(), located_at(line).unwrap()),
            value: None,
        },
    }
}

#[test]
fn menu_controls_compile_with_their_drives_and_axes() {
    let (compiled, errors) = run(vec![
        hat_toggle(),
        MenuItemOutline::Button {
            name: "Smile".into(),
            drive: DriveOutline::Group { layer: Unresolved::new("Expressions".to_owned()), option: "smile".into() },
        },
        MenuItemOutline::Radial { name: "Wink".into(), axis: bare(AxisTarget::PuppetLayer(Unresolved::new("Wink".into()))) },
        MenuItemOutline::SubMenu {
            name: "More".into(),
            items: vec![MenuItemOutline::TwoAxis {
                name: "Move".into(),
                horizontal: AxisOutline {
                    target: AxisTarget::Parameter(Unresolved::new("Move".into())),
                    positive: Some("Right".into()),
                    negative: Some("Left".into()),
                },
                vertical: bare(AxisTarget::Parameter(Unresolved::new("Wink".into()))),
            }],
        },
    ]);
    assert!(errors.is_empty(), "{errors:?}");
    assert_eq!(
        compiled,
        vec![
            MenuEntry::Toggle { name: "Hat".into(), target: DriveTarget::Flag(resolved("Hat", AnimatedValueType::Bool), true) },
            MenuEntry::Button {
                name: "Smile".into(),
                target: DriveTarget::Option(resolved("Emote", AnimatedValueType::Int), 1),
            },
            MenuEntry::Radial {
                name: "Wink".into(),
                axis: MenuAxis { parameter: resolved("Wink", AnimatedValueType::Float), positive: None, negative: None },
            },
            MenuEntry::SubMenu {
                name: "More".into(),
                items: vec![MenuEntry::TwoAxis {
                    name: "Move".into(),
                    horizontal: MenuAxis {
                        parameter: resolved("Move", AnimatedValueType::Float),
                        positive: Some("Right".into()),
                        negative: Some("Left".into()),
                    },
                    vertical: MenuAxis { parameter: resolved("Wink", AnimatedValueType::Float), positive: None, negative: None },
                }],
            },
        ]
    );
}

#[test]
fn a_four_axis_menu_control_keeps_its_directions() {
    let axis = |label: &str| AxisOutline {
        target: AxisTarget::Parameter(Unresolved::new("Move".into())),
        positive: Some(label.into()),
        negative: None,
    };
    let (compiled, errors) = run(vec![MenuItemOutline::FourAxis {
        name: "Move".into(),
        up: axis("U"),
        down: axis("D"),
        left: axis("L"),
        right: axis("R"),
    }]);
    assert!(errors.is_empty(), "{errors:?}");
    let MenuEntry::FourAxis { up, down, left, right, .. } = &compiled[0] else {
        panic!("expected a four-axis control");
    };
    assert_eq!([up, down, left, right].map(|axis| axis.positive.clone().unwrap()), ["U", "D", "L", "R"].map(str::to_owned));
}

#[test]
fn a_control_with_a_bad_axis_is_dropped_with_its_error() {
    let (compiled, errors) = run(vec![MenuItemOutline::Radial {
        name: "Bad".into(),
        axis: bare(AxisTarget::Parameter(Unresolved::located("Emote".into(), located_at(3).unwrap()))),
    }]);
    assert!(compiled.is_empty());
    assert_eq!(
        errors,
        vec![TransformErrorKind::ParameterTypeMismatch {
            name: "Emote".into(),
            expected: AnimatedValueType::Float,
            found: AnimatedValueType::Int,
        }
        .at(located_at(3))]
    );
}

#[test]
fn every_bad_control_is_reported_and_the_good_ones_are_kept() {
    let (compiled, errors) = run(vec![
        missing_toggle(1),
        hat_toggle(),
        MenuItemOutline::SubMenu { name: "Sub".into(), items: vec![missing_toggle(2), hat_toggle()] },
    ]);
    assert_eq!(
        errors,
        vec![
            TransformErrorKind::UnknownLayer { name: "Missing".into() }.at(located_at(1)),
            TransformErrorKind::UnknownLayer { name: "Missing".into() }.at(located_at(2)),
        ]
    );
    assert_eq!(compiled.len(), 2);
    let MenuEntry::SubMenu { items, .. } = &compiled[1] else {
        panic!("expected a submenu");
    };
    assert_eq!(items.len(), 1);
}

#[test]
fn a_submenu_of_nine_controls_is_reported_and_kept() {
    let (compiled, errors) = run(vec![MenuItemOutline::SubMenu {
        name: "Sub".into(),
        items: (0..9).map(|_| hat_toggle()).collect(),
    }]);
    assert_eq!(
        errors,
        vec![TransformError::new(TransformErrorKind::MenuTooLarge { name: "Sub".into(), count: 9, capacity: 8 })]
    );
    assert_eq!(compiled.len(), 1);
    let MenuEntry::SubMenu { items, .. } = &compiled[0] else {
        panic!("expected a submenu");
    };
    assert_eq!(items.len(), 9);
}

#[test]
fn the_root_menu_is_named_root_and_its_size_error_comes_first() {
    let mut items: Vec<MenuItemOutline> = (0..8).map(|_| hat_toggle()).collect();
    items.push(missing_toggle(5));
    let (compiled, errors) = run(items);
    assert_eq!(compiled.len(), 8);
    assert_eq!(
        errors,
        vec![
            TransformError::new(TransformErrorKind::MenuTooLarge { name: "root".into(), count: 9, capacity: 8 }),
            TransformErrorKind::UnknownLayer { name: "Missing".into() }.at(located_at(5)),
        ]
    );
}

#[test]
fn a_submenu_compiles_even_when_its_controls_fail() {
    let (layers, parameters) = context();
    let mut errors = Vec::new();
    let submenu = MenuItemOutline::SubMenu { name: "Sub".into(), items: vec![missing_toggle(7)] };
    let compiled = compile_item(&layers, &parameters, &submenu, &mut errors).unwrap();
    assert_eq!(compiled, MenuEntry::SubMenu { name: "Sub".into(), items: vec![] });
    assert_eq!(errors.len(), 1);

    let mut more = Vec::new();
    let entries = compile_menu_items(&layers, &parameters, &"Inner".to_owned(), &vec![hat_toggle()], &mut more);
    assert_eq!(entries.len(), 1);
    assert!(more.is_empty());
}
