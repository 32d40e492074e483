use declavatar2::parameters::ParameterTable;
use declavatar2::puppet_pass::{
    duplicate_keyframe, plan_puppet, puppet_parameter, repeated_keyframe, union_ranks, BlendTargets, KeyframeConflict, Sample, TypedEntry,
};
use declavatar2::resolution::{Resolved, SourceLocation, Unresolved};
use declavatar2::transform_error::TransformErrorKind;
use declavatar2::value::{AnimatedValueType, AnimatorParameterType};
use declavatar2::value_set::ValueSet;

const BROW: u64 = 1;
const WINK_L: u64 = 2;
const WINK_R: u64 = 3;

fn float(key: u64) -> TypedEntry {
    TypedEntry { key, value_type: AnimatedValueType::Float }
}

fn keyframe(entries: &[TypedEntry]) -> ValueSet<TypedEntry> {
    ValueSet::from_entries(entries.to_vec())
}

fn at(line: u32) -> Option<SourceLocation> {
    Some(SourceLocation { chunk: "avatar.lua".into(), line })
}

#[test]
fn a_puppet_layer_interpolates_missing_targets_and_holds_the_ends() {
    // In time order: -1.0, 0.0, 1.0.
    let keyframes = vec![keyframe(&[float(WINK_L), float(BROW)]), keyframe(&[float(BROW)]), keyframe(&[float(WINK_R)])];
    let plan = plan_puppet(&keyframes).unwrap();
    assert_eq!(plan.keys, [BROW, WINK_L, WINK_R]);
    assert_eq!(
        plan.samples,
        vec![
            vec![Sample::Written, Sample::Written, Sample::Held(2)],
            vec![Sample::Written, Sample::Held(0), Sample::Held(2)],
            vec![Sample::Held(1), Sample::Held(0), Sample::Written],
        ]
    );
}

#[test]
fn a_puppet_layer_interpolates_between_written_neighbours() {
    let open = 5;
    let hat = 6;
    let keyframes = vec![
        keyframe(&[float(open), TypedEntry { key: hat, value_type: AnimatedValueType::Bool }]),
        keyframe(&[]),
        keyframe(&[float(open), TypedEntry { key: hat, value_type: AnimatedValueType::Bool }]),
    ];
    let plan = plan_puppet(&keyframes).unwrap();
    assert_eq!(plan.keys, [open, hat]);
    assert_eq!(plan.samples[1], [Sample::Between { previous: 0, next: 2 }, Sample::Between { previous: 0, next: 2 }]);
}

#[test]
fn a_target_written_with_two_types_is_reported() {
    let keyframes = vec![
        keyframe(&[float(WINK_R), float(BROW)]),
        keyframe(&[TypedEntry { key: WINK_R, value_type: AnimatedValueType::Int }, float(BROW)]),
        keyframe(&[TypedEntry { key: BROW, value_type: AnimatedValueType::Bool }]),
    ];
    assert_eq!(
        plan_puppet(&keyframes).unwrap_err(),
        KeyframeConflict { key: BROW, first: AnimatedValueType::Float, second: AnimatedValueType::Bool }
    );
    let later = vec![keyframe(&[float(WINK_L)]), keyframe(&[TypedEntry { key: WINK_L, value_type: AnimatedValueType::Int }])];
    assert_eq!(
        plan_puppet(&later).unwrap_err(),
        KeyframeConflict { key: WINK_L, first: AnimatedValueType::Float, second: AnimatedValueType::Int }
    );
}

#[test]
fn a_puppet_needs_a_float_driver_and_a_keyframe() {
    let mut parameters = ParameterTable::new();
    parameters.declare(&"Wink".to_string(), AnimatorParameterType::Float, None, &None).unwrap();
    parameters.declare(&"Hat".to_string(), AnimatorParameterType::Bool, None, &None).unwrap();
    let wink = Unresolved::new("Wink".to_owned());
    assert_eq!(
        puppet_parameter(&parameters, &wink, &"Wink".to_string(), &at(30), 2).unwrap(),
        Resolved::new("Wink".to_string(), AnimatedValueType::Float)
    );
    assert_eq!(
        puppet_parameter(&parameters, &wink, &"Wink".to_string(), &at(30), 0).unwrap_err(),
        TransformErrorKind::NoKeyframes { layer: "Wink".into() }.at(at(30))
    );
    let hat = Unresolved::located("Hat".to_owned(), at(31).unwrap());
    assert_eq!(
        puppet_parameter(&parameters, &hat, &"Wink".to_string(), &at(30), 0).unwrap_err(),
        TransformErrorKind::ParameterTypeMismatch {
            name: "Hat".into(),
            expected: AnimatedValueType::Float,
            found: AnimatedValueType::Bool,
        }
        .at(at(31))
    );
}

#[test]
fn the_targets_of_all_keyframes_are_merged_in_key_order() {
    let keyframes = vec![keyframe(&[float(9), float(4)]), keyframe(&[float(4), float(1)]), keyframe(&[])];
    assert_eq!(union_ranks(&keyframes), [1, 4, 9]);
    assert!(union_ranks(&Vec::new()).is_empty());
}

#[test]
fn children_of_a_blend_layer_may_not_share_a_target() {
    let mut targets = BlendTargets::new();
    assert_eq!(targets.claim(&[WINK_L, WINK_R]), Ok(()));
    assert_eq!(targets.claim(&[BROW]), Ok(()));
    assert_eq!(targets.claim(&[BROW, WINK_R, 4]), Err(BROW));
    assert_eq!(targets.claim(&[4]), Ok(()));
    assert_eq!(targets.claim(&[4]), Err(4));
}

#[test]
fn the_earliest_time_two_keyframes_share_is_found() {
    assert_eq!(repeated_keyframe(&[]), None);
    assert_eq!(repeated_keyframe(&[0, 1, 2]), None);
    // Times 0.0, 1.0, 0.0 as ranks: the first keyframe written at the repeated time.
    assert_eq!(repeated_keyframe(&[0, 1, 0]), Some(0));
    // Two repeated times: the earlier one is reported, through its first keyframe.
    assert_eq!(repeated_keyframe(&[3, 2, 3, 1, 2]), Some(1));
    assert_eq!(
        duplicate_keyframe(&"Wink".to_string(), "0".to_string(), &at(30)),
        TransformErrorKind::DuplicateKeyframe { layer: "Wink".into(), time: "0".into() }.at(at(30))
    );
}
