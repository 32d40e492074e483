use declavatar2::compile::{report, CompileError, ScriptError};
use declavatar2::diagnostics::{Diagnostic, DiagnosticStage, Diagnostics};
use declavatar2::header::{BlobKind, DIAGNOSTICS_MAGIC, HEADER_LEN};
use declavatar2::interop::{decode_blob, decode_diagnostics, encode_blob, encode_diagnostics};
use declavatar2::resolution::SourceLocation;
use declavatar2::transform_error::{TransformError, TransformErrorKind, TransformErrors};
use declavatar2::value::AnimatedValueType;
use declavatar2::wire::DecodeError;

fn at(line: u32) -> Option<SourceLocation> {
    Some(SourceLocation { chunk: "avatar.lua".into(), line })
}

#[test]
fn diagnostics_round_trip_with_and_without_locations() {
    let diagnostics = Diagnostics {
        stage: DiagnosticStage::Transform,
        items: vec![
            Diagnostic { at: at(9), message: "parameter `Emote` is not declared".into() },
            Diagnostic { at: None, message: "".into() },
        ],
    };
    let blob = encode_diagnostics(&diagnostics).unwrap();
    assert_eq!(&blob[..4], DIAGNOSTICS_MAGIC);
    assert_eq!(decode_diagnostics(&blob).unwrap(), diagnostics);
}

#[test]
fn diagnostics_have_a_documented_payload() {
    let diagnostics = Diagnostics {
        stage: DiagnosticStage::Script,
        items: vec![Diagnostic { at: Some(SourceLocation { chunk: "a".into(), line: 2 }), message: "m".into() }],
    };
    let blob = encode_diagnostics(&diagnostics).unwrap();
    assert_eq!(
        &blob[HEADER_LEN..],
        [0, 1, 0, 0, 0, 1, 1, 0, 0, 0, b'a', 2, 0, 0, 0, 1, 0, 0, 0, b'm']
    );
}

#[test]
fn an_avatar_blob_is_not_read_as_diagnostics() {
    let blob = encode_blob(BlobKind::Avatar, &Some(3u32)).unwrap();
    assert_eq!(
        decode_diagnostics(&blob).unwrap_err(),
        DecodeError::UnexpectedKind { expected: BlobKind::Diagnostics, found: BlobKind::Avatar }
    );
    assert_eq!(decode_blob::<Option<u32>>(BlobKind::Avatar, &blob).unwrap(), Some(3));
}

#[test]
fn trailing_payload_bytes_are_rejected() {
    let mut blob = encode_blob(BlobKind::Avatar, &true).unwrap();
    blob.push(0);
    let len = u32::try_from(blob.len() - HEADER_LEN).unwrap();
    blob[12..16].copy_from_slice(&len.to_le_bytes());
    assert_eq!(decode_blob::<bool>(BlobKind::Avatar, &blob).unwrap_err(), DecodeError::TrailingBytes(1));
}

#[test]
fn an_unknown_stage_is_rejected() {
    let mut blob = encode_diagnostics(&Diagnostics { stage: DiagnosticStage::Script, items: vec![] }).unwrap();
    blob[HEADER_LEN] = 2;
    assert_eq!(
        decode_diagnostics(&blob).unwrap_err(),
        DecodeError::InvalidDiscriminator { of_type: "DiagnosticStage", value: 2 }
    );
}

#[test]
fn a_transform_failure_becomes_located_transform_diagnostics() {
    let error = CompileError::Transform(TransformErrors(vec![
        TransformErrorKind::UnknownParameter { name: "Hat".into() }.at(at(2)),
        TransformError::new(TransformErrorKind::InvalidAxis),
    ]));
    let diagnostics = report(&error);
    assert_eq!(diagnostics.stage, DiagnosticStage::Transform);
    assert_eq!(diagnostics.items.len(), 2);
    assert_eq!(diagnostics.items[0].at.as_ref().map(|at| at.chunk.as_str()), Some("avatar.lua"));
    assert_eq!(diagnostics.items[0].message, "parameter `Hat` is not declared");
    assert_eq!(diagnostics.items[1].at, None);
    assert_eq!(
        diagnostics.items[1].message,
        "an axis takes a parameter name or `da.drive_puppet(layer)` without a value"
    );
    assert_eq!(decode_diagnostics(&encode_diagnostics(&diagnostics).unwrap()).unwrap(), diagnostics);
}

#[test]
fn a_script_failure_becomes_one_unlocated_script_diagnostic() {
    let error = CompileError::Script(ScriptError::Script("avatar.lua:1: boom".into()));
    let diagnostics = report(&error);
    assert_eq!(diagnostics.stage, DiagnosticStage::Script);
    assert_eq!(diagnostics.items.len(), 1);
    assert_eq!(diagnostics.items[0].at, None);
    assert!(diagnostics.items[0].message.contains("boom"), "{}", diagnostics.items[0].message);
}

#[test]
fn script_errors_explain_themselves() {
    assert_eq!(
        ScriptError::Runtime("out of memory".into()).message(),
        "failed to prepare the Lua runtime: out of memory"
    );
    assert_eq!(ScriptError::Script("avatar.lua:2: boom".into()).message(), "avatar.lua:2: boom");
    assert_eq!(
        ScriptError::NotAnAvatar { found: "number".into() }.message(),
        "the script must end with `return da.avatar(...)`, but it returned number"
    );
}

#[test]
fn a_located_error_names_its_line() {
    let error = TransformErrorKind::UnknownParameter { name: "Emote".into() }.at(at(9));
    assert_eq!(error.message(), "avatar.lua:9: parameter `Emote` is not declared");
}

#[test]
fn an_unlocated_error_is_the_message_alone() {
    let error = TransformError::new(TransformErrorKind::UnknownParameter { name: "Emote".into() });
    assert_eq!(error.message(), "parameter `Emote` is not declared");
}

#[test]
fn or_at_fills_a_missing_location_only() {
    let seven = at(7);
    let kept = TransformErrorKind::UnknownParameter { name: "A".into() }.at(at(3)).or_at(seven.as_ref());
    assert_eq!(kept.at, at(3));

    let filled = TransformError::new(TransformErrorKind::UnknownParameter { name: "A".into() }).or_at(seven.as_ref());
    assert_eq!(filled.at, at(7));

    let none = TransformError::new(TransformErrorKind::InvalidAxis).or_at(None);
    assert_eq!(none.at, None);
}

#[test]
fn errors_are_listed_one_per_line() {
    let errors = TransformErrors(vec![
        TransformErrorKind::UnknownParameter { name: "A".into() }.at(at(1)),
        TransformErrorKind::UnknownLayer { name: "B".into() }.at(at(2)),
    ]);
    assert_eq!(
        errors.message(),
        "avatar.lua:1: parameter `A` is not declared\navatar.lua:2: layer `B` is not declared"
    );
    assert_eq!(TransformErrors(vec![]).message(), "");
}

#[test]
fn every_error_kind_has_its_sentence() {
    let cases: Vec<(TransformErrorKind, &str)> = vec![
        (TransformErrorKind::DuplicateParameter { name: "P".into() }, "parameter `P` is declared more than once"),
        (
            TransformErrorKind::ParameterCollidesWithProvided { name: "P".into() },
            "parameter `P` collides with a provided parameter of the same name",
        ),
        (
            TransformErrorKind::DuplicateProvidedGroup { group: "VRChat".into() },
            "provided parameters `VRChat` are declared more than once",
        ),
        (TransformErrorKind::UnknownParameter { name: "P".into() }, "parameter `P` is not declared"),
        (
            TransformErrorKind::ParameterTypeMismatch {
                name: "P".into(),
                expected: AnimatedValueType::Int,
                found: AnimatedValueType::Float,
            },
            "parameter `P` is Float, but Int is needed here",
        ),
        (
            TransformErrorKind::GeneratedParameterCollision { name: "G".into() },
            "the transform needs parameter `G` for itself, but the script declares it",
        ),
        (TransformErrorKind::DuplicateLayer { name: "L".into() }, "layer `L` is declared more than once"),
        (TransformErrorKind::UnknownLayer { name: "L".into() }, "layer `L` is not declared"),
        (
            TransformErrorKind::LayerKindMismatch { name: "L".into(), expected: "group", found: "switch" },
            "layer `L` is a switch layer, but a group layer is needed here",
        ),
        (
            TransformErrorKind::DuplicateOption { layer: "L".into(), option: "o".into() },
            "option `o` of `L` is declared more than once",
        ),
        (TransformErrorKind::UnknownOption { layer: "L".into(), option: "o".into() }, "layer `L` has no option `o`"),
        (
            TransformErrorKind::OptionsNeedDefault { layer: "L".into(), targets: "`Hat` active".into() },
            "the options of `L` animate `Hat` active, which cannot be zeroed and must be written in the default",
        ),
        (
            TransformErrorKind::ToggleNeedsBothSides { layer: "L".into(), target: "`Hat` active".into() },
            "the toggle list of `L` animates `Hat` active, which cannot be zeroed for the disabled side",
        ),
        (TransformErrorKind::NoKeyframes { layer: "L".into() }, "puppet layer `L` has no keyframes"),
        (
            TransformErrorKind::DuplicateKeyframe { layer: "L".into(), time: "0.5".into() },
            "puppet layer `L` places two keyframes at 0.5",
        ),
        (
            TransformErrorKind::KeyframeTypeMismatch {
                layer: "L".into(),
                target: "t".into(),
                first: AnimatedValueType::Bool,
                second: AnimatedValueType::Vector3,
            },
            "the keyframes of `L` write t as both Bool and Vector3",
        ),
        (
            TransformErrorKind::OverlappingBlendTargets { layer: "L".into(), target: "t".into() },
            "children of blend layer `L` both animate t, and children sum instead of overriding",
        ),
        (
            TransformErrorKind::DuplicateState { layer: "L".into(), state: "s".into() },
            "state `s` of `L` is declared more than once",
        ),
        (TransformErrorKind::UnknownState { layer: "L".into(), state: "s".into() }, "layer `L` has no state `s`"),
        (
            TransformErrorKind::UnsupportedCondition {
                condition: "da.gt",
                parameter: "P".into(),
                value_type: AnimatedValueType::Bool,
            },
            "`da.gt` cannot be applied to parameter `P` of type Bool",
        ),
        (
            TransformErrorKind::ValueTypeMismatch { expected: AnimatedValueType::Color, found: AnimatedValueType::ObjectReference },
            "a Color value is needed here, but a ObjectReference value was written",
        ),
        (
            TransformErrorKind::NestedPlayback { option: "speed" },
            "`speed` can only be set on the motion of a state, not on a field of a blend tree",
        ),
        (
            TransformErrorKind::InvalidAxis,
            "an axis takes a parameter name or `da.drive_puppet(layer)` without a value",
        ),
        (
            TransformErrorKind::MenuTooLarge { name: "Root".into(), count: 9, capacity: 8 },
            "menu `Root` holds 9 controls, but a menu can hold 8 at most",
        ),
    ];
    for (kind, expected) in cases {
        assert_eq!(kind.message(), expected);
    }
}

#[test]
fn value_types_are_named_in_messages() {
    let names = [
        (AnimatedValueType::Float, "Float"),
        (AnimatedValueType::Int, "Int"),
        (AnimatedValueType::Bool, "Bool"),
        (AnimatedValueType::Vector2, "Vector2"),
        (AnimatedValueType::Vector3, "Vector3"),
        (AnimatedValueType::Vector4, "Vector4"),
        (AnimatedValueType::Quaternion, "Quaternion"),
        (AnimatedValueType::Color, "Color"),
        (AnimatedValueType::ObjectReference, "ObjectReference"),
    ];
    for (value_type, name) in names {
        let kind = TransformErrorKind::ValueTypeMismatch { expected: value_type, found: value_type };
        assert_eq!(kind.message(), format!("a {name} value is needed here, but a {name} value was written"));
        assert_eq!(format!("{value_type:?}"), name);
    }
}

#[test]
fn large_numbers_are_written_in_full() {
    let kind = TransformErrorKind::MenuTooLarge { name: "M".into(), count: 1_234_567_890, capacity: 0 };
    assert_eq!(kind.message(), "menu `M` holds 1234567890 controls, but a menu can hold 0 at most");
    let error = TransformError::at(TransformErrorKind::InvalidAxis, Some(SourceLocation { chunk: "c".into(), line: u32::MAX }));
    assert!(error.message().starts_with("c:4294967295: "), "{}", error.message());
}
