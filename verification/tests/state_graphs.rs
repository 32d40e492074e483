use declavatar2::controller::{TransitionSource, TransitionTarget};
use declavatar2::layers::driver;
use declavatar2::parameters::{ParameterRef, ParameterTable};
use declavatar2::resolution::{Resolved, SourceLocation, Unresolved};
use declavatar2::state_graph::{
    group_graph, group_states, group_transitions, switch_graph, switch_transitions, toggle_off, ConditionOutline,
    GraphError, SwitchContentOutline, TransitionOutline,
};
use declavatar2::transform_error::TransformErrorKind;
use declavatar2::value::{AnimatedValueType, AnimatorParameterType};
use declavatar2::value_set::{MaybeZeroableEntry, ValueSet};

/// An animated value under a numbered target. A zeroable value is a weight in hundredths; a value
/// that cannot be zeroed stands for an asset reference.
#[derive(Debug, Clone, Copy, PartialEq, Eq)]
struct Shape(u64, Option<u32>);

const ANGRY: u64 = 1;
const EYELID: u64 = 2;
const SMILE: u64 = 3;
const MATERIAL: u64 = 4;

impl MaybeZeroableEntry for Shape {
    type Key = u64;

    fn spec_key(&self) -> u64 {
        self.0
    }

    fn spec_zeroed(&self) -> Option<Shape> {
        self.zeroed()
    }

    fn key(&self) -> u64 {
        self.0
    }

    fn zeroed(&self) -> Option<Shape> {
        self.1.map(|_| Shape(self.0, Some(0)))
    }

    fn duplicate(&self) -> Shape {
        *self
    }
}

fn weight(key: u64, hundredths: u32) -> Shape {
    Shape(key, Some(hundredths))
}

fn material(key: u64) -> Shape {
    Shape(key, None)
}

fn content(entries: &[Shape]) -> ValueSet<Shape> {
    ValueSet::from_entries(entries.to_vec())
}

fn written(set: &ValueSet<Shape>) -> Vec<Shape> {
    set.entries().to_vec()
}

fn at(line: u32) -> Option<SourceLocation> {
    Some(SourceLocation { chunk: "avatar.lua".into(), line })
}

fn parameters() -> ParameterTable {
    let mut table = ParameterTable::new();
    table.declare(&"Emote".to_string(), AnimatorParameterType::Int, None, &at(1)).unwrap();
    table.declare(&"Hat".to_string(), AnimatorParameterType::Bool, None, &at(2)).unwrap();
    table
}

fn resolved(name: &str, context: AnimatedValueType) -> ParameterRef {
    Resolved { value: name.into(), context }
}

fn transition(from: TransitionSource, to: TransitionTarget, condition: ConditionOutline) -> TransitionOutline {
    TransitionOutline { from, to, conditions: vec![condition] }
}

fn expression_options() -> Vec<ValueSet<Shape>> {
    vec![content(&[weight(SMILE, 100)]), content(&[weight(ANGRY, 100), weight(EYELID, 80)])]
}

#[test]
fn a_group_layer_completes_its_states_mutually() {
    let states = group_states(Some(content(&[weight(EYELID, 30)])), expression_options()).unwrap();
    assert_eq!(states.len(), 3);
    assert_eq!(written(&states[0]), [weight(ANGRY, 0), weight(EYELID, 30), weight(SMILE, 0)]);
    assert_eq!(written(&states[1]), [weight(ANGRY, 0), weight(EYELID, 30), weight(SMILE, 100)]);
    assert_eq!(written(&states[2]), [weight(ANGRY, 100), weight(EYELID, 80), weight(SMILE, 0)]);
}

#[test]
fn a_group_without_a_default_starts_from_the_zeroed_options() {
    let states = group_states(None, vec![content(&[weight(SMILE, 100)])]).unwrap();
    assert_eq!(written(&states[0]), [weight(SMILE, 0)]);
    assert_eq!(written(&states[1]), [weight(SMILE, 100)]);
}

#[test]
fn an_option_may_not_introduce_a_reference_the_default_lacks() {
    let options = vec![content(&[material(MATERIAL), weight(SMILE, 100)])];
    let keys = group_states(Some(content(&[weight(EYELID, 30)])), options).unwrap_err();
    assert_eq!(keys, [MATERIAL]);

    let covered = vec![content(&[material(MATERIAL)])];
    let states = group_states(Some(content(&[Shape(MATERIAL, None)])), covered).unwrap();
    assert_eq!(written(&states[1]), [material(MATERIAL)]);
}

#[test]
fn a_symmetric_group_layer_fans_out_from_entry_and_exits() {
    let emote = resolved("Emote", AnimatedValueType::Int);
    let transitions = group_transitions(&emote, 2, true);
    assert_eq!(
        transitions,
        vec![
            transition(TransitionSource::Entry, TransitionTarget::State(1), ConditionOutline::Equals(emote.clone(), 1)),
            transition(TransitionSource::Entry, TransitionTarget::State(2), ConditionOutline::Equals(emote.clone(), 2)),
            transition(TransitionSource::State(1), TransitionTarget::Exit, ConditionOutline::NotEqual(emote.clone(), 1)),
            transition(TransitionSource::State(2), TransitionTarget::Exit, ConditionOutline::NotEqual(emote.clone(), 2)),
            transition(TransitionSource::State(0), TransitionTarget::Exit, ConditionOutline::Equals(emote.clone(), 1)),
            transition(TransitionSource::State(0), TransitionTarget::Exit, ConditionOutline::Equals(emote, 2)),
        ]
    );
}

#[test]
fn a_hub_group_layer_goes_through_its_default_state() {
    let emote = resolved("Emote", AnimatedValueType::Int);
    let transitions = group_transitions(&emote, 2, false);
    assert_eq!(
        transitions,
        vec![
            transition(TransitionSource::State(0), TransitionTarget::State(1), ConditionOutline::Equals(emote.clone(), 1)),
            transition(TransitionSource::State(1), TransitionTarget::State(0), ConditionOutline::NotEqual(emote.clone(), 1)),
            transition(TransitionSource::State(0), TransitionTarget::State(2), ConditionOutline::Equals(emote.clone(), 2)),
            transition(TransitionSource::State(2), TransitionTarget::State(0), ConditionOutline::NotEqual(emote, 2)),
        ]
    );
}

#[test]
fn a_group_without_options_has_no_transitions() {
    let emote = resolved("Emote", AnimatedValueType::Int);
    assert!(group_transitions(&emote, 0, true).is_empty());
    assert!(group_transitions(&emote, 0, false).is_empty());
}

#[test]
fn a_group_graph_is_symmetric_unless_told_otherwise() {
    let table = parameters();
    let reference = Unresolved::new("Emote".to_owned());
    let graph = group_graph(&table, &reference, Some(content(&[weight(EYELID, 30)])), expression_options(), None)
        .unwrap();
    let emote = resolved("Emote", AnimatedValueType::Int);
    assert_eq!(graph.parameter, emote);
    assert_eq!(graph.states.len(), 3);
    assert_eq!(graph.transitions, group_transitions(&emote, 2, true));

    let hub = group_graph(&table, &reference, Some(content(&[weight(EYELID, 30)])), expression_options(), Some(false))
        .unwrap();
    assert_eq!(hub.transitions, group_transitions(&emote, 2, false));
}

#[test]
fn a_group_layer_without_a_driver_follows_a_parameter_of_its_own_name() {
    let table = parameters();
    let reference = driver(None, "Emote", at(10).as_ref());
    let graph = group_graph(&table, &reference, None, expression_options(), None).unwrap();
    assert_eq!(
        graph.transitions[0].conditions[0],
        ConditionOutline::Equals(resolved("Emote", AnimatedValueType::Int), 1)
    );
}

#[test]
fn a_group_layer_needs_an_int_driver() {
    let table = parameters();
    let reference = Unresolved::located("Hat".into(), at(11).unwrap());
    let error = group_graph(&table, &reference, None, expression_options(), None).unwrap_err();
    assert_eq!(
        error,
        GraphError::Parameter(
            TransformErrorKind::ParameterTypeMismatch {
                name: "Hat".into(),
                expected: AnimatedValueType::Int,
                found: AnimatedValueType::Bool,
            }
            .at(at(11))
        )
    );
}

#[test]
fn the_driver_is_checked_before_the_options() {
    let table = parameters();
    let reference = Unresolved::located("Missing".into(), at(12).unwrap());
    let options = vec![content(&[material(MATERIAL)])];
    let error = group_graph(&table, &reference, None, options, None).unwrap_err();
    assert_eq!(
        error,
        GraphError::Parameter(TransformErrorKind::UnknownParameter { name: "Missing".into() }.at(at(12)))
    );

    let reference = Unresolved::new("Emote".to_owned());
    let options = vec![content(&[material(MATERIAL)])];
    assert_eq!(group_graph(&table, &reference, None, options, None).unwrap_err(), GraphError::NeedsDefault(vec![MATERIAL]));
}

#[test]
fn a_toggle_list_zeroes_itself_for_the_disabled_side() {
    let table = parameters();
    let reference = Unresolved::new("Hat".to_owned());
    let on = content(&[weight(EYELID, 100), weight(SMILE, 100)]);
    let graph = switch_graph(&table, &reference, SwitchContentOutline::Toggle(on)).unwrap();
    let hat = resolved("Hat", AnimatedValueType::Bool);
    assert_eq!(written(&graph.states[0]), [weight(EYELID, 0), weight(SMILE, 0)]);
    assert_eq!(written(&graph.states[1]), [weight(EYELID, 100), weight(SMILE, 100)]);
    assert_eq!(
        graph.transitions,
        vec![
            transition(TransitionSource::State(0), TransitionTarget::State(1), ConditionOutline::If(hat.clone())),
            transition(TransitionSource::State(1), TransitionTarget::State(0), ConditionOutline::IfNot(hat.clone())),
        ]
    );
    assert_eq!(switch_transitions(&hat), graph.transitions);
}

#[test]
fn both_sides_are_taken_as_written() {
    let table = parameters();
    let reference = Unresolved::new("Hat".to_owned());
    let sides = SwitchContentOutline::Sides { off: content(&[]), on: content(&[material(MATERIAL)]) };
    let graph = switch_graph(&table, &reference, sides).unwrap();
    assert!(written(&graph.states[0]).is_empty());
    assert_eq!(written(&graph.states[1]), [material(MATERIAL)]);
}

#[test]
fn a_toggle_list_cannot_zero_a_reference() {
    let table = parameters();
    let reference = Unresolved::new("Hat".to_owned());
    let toggle = SwitchContentOutline::Toggle(content(&[weight(EYELID, 100), material(MATERIAL)]));
    assert_eq!(switch_graph(&table, &reference, toggle).unwrap_err(), GraphError::NeedsBothSides(MATERIAL));
    assert_eq!(toggle_off(&content(&[material(MATERIAL), material(MATERIAL + 1)])).unwrap_err(), MATERIAL);
}

#[test]
fn a_switch_needs_a_bool_driver() {
    let table = parameters();
    let reference = Unresolved::located("Emote".into(), at(20).unwrap());
    let error = switch_graph(&table, &reference, SwitchContentOutline::Toggle(content(&[]))).unwrap_err();
    assert_eq!(
        error,
        GraphError::Parameter(
            TransformErrorKind::ParameterTypeMismatch {
                name: "Emote".into(),
                expected: AnimatedValueType::Bool,
                found: AnimatedValueType::Int,
            }
            .at(at(20))
        )
    );
}
