//! The states and transitions of group and switch layers: which state each value of the layer's
//! parameter selects, and how the animator moves between them.
use vstd::prelude::*;

use crate::controller::{TransitionSource, TransitionTarget};
use crate::parameters::{typed_resolution, ParameterRef, ParameterTable};
use crate::describe::{describe, describe_all, description, joined};
use crate::resolution::{duplicate_location, Resolved, SourceLocation, Unresolved};
use crate::target::{AnimatedTarget, Declared};
use crate::transform_error::{TransformError, TransformErrorKind};
use crate::value::AnimatedValueType;
use crate::value_set::{
    all_entries, contents_of, fill, fill_replacing, law_defaults_merge_has_the_keys_of_the_defaults, law_fill_as_zero_covers_every_key, missing_keys, orphan_keys, rank_of,
    zeroed_list, MaybeZeroableEntry, ValueSet,
};

verus! {

/// A condition on an int or bool parameter, as the transitions of group and switch layers use them.
#[derive(Debug, Clone, PartialEq)]
pub enum ConditionOutline {
    /// The bool parameter is set.
    If(ParameterRef),
    /// The bool parameter is not set.
    IfNot(ParameterRef),
    /// The int parameter has this value.
    Equals(ParameterRef, i64),
    /// The int parameter has any other value.
    NotEqual(ParameterRef, i64),
}

/// A transition between states of one layer, taken when all its conditions hold. The transitions
/// of these layers are immediate.
#[derive(Debug, Clone, PartialEq)]
pub struct TransitionOutline {
    pub from: TransitionSource,
    pub to: TransitionTarget,
    pub conditions: Vec<ConditionOutline>,
}

impl View for TransitionOutline {
    type V = (TransitionSource, TransitionTarget, Seq<ConditionOutline>);

    open spec fn view(&self) -> (TransitionSource, TransitionTarget, Seq<ConditionOutline>) {
        (self.from, self.to, self.conditions@)
    }
}

/// How many transitions a group layer with `options` options has.
pub open spec fn group_transition_count(options: nat, symmetric: bool) -> nat {
    if symmetric {
        3 * options
    } else {
        2 * options
    }
}

/// The transition at position `k` of a group layer with `options` options, state 0 being the
/// default and state `i` the `i`-th option, selected by the value `i` of the parameter.
///
/// A symmetric group enters option `i` from the entry node when the parameter is `i`, leaves it to
/// the exit node when the parameter is anything else, and leaves the default state to the exit
/// node for every option value: first the entries, then the exits of the options, then the exits
/// of the default. Otherwise each option is entered from the default and left back to it, option
/// by option.
pub open spec fn group_transition(parameter: ParameterRef, options: nat, symmetric: bool, k: int) -> (
    TransitionSource,
    TransitionTarget,
    Seq<ConditionOutline>,
) {
    if symmetric {
        if k < options {
            let i = k + 1;
            (
                TransitionSource::Entry,
                TransitionTarget::State(i as usize),
                seq![ConditionOutline::Equals(parameter, i as i64)],
            )
        } else if k < 2 * options {
            let i = k - options + 1;
            (
                TransitionSource::State(i as usize),
                TransitionTarget::Exit,
                seq![ConditionOutline::NotEqual(parameter, i as i64)],
            )
        } else {
            let i = k - 2 * options + 1;
            (
                TransitionSource::State(0),
                TransitionTarget::Exit,
                seq![ConditionOutline::Equals(parameter, i as i64)],
            )
        }
    } else {
        let i = k / 2 + 1;
        if k % 2 == 0 {
            (
                TransitionSource::State(0),
                TransitionTarget::State(i as usize),
                seq![ConditionOutline::Equals(parameter, i as i64)],
            )
        } else {
            (
                TransitionSource::State(i as usize),
                TransitionTarget::State(0),
                seq![ConditionOutline::NotEqual(parameter, i as i64)],
            )
        }
    }
}

/// The transition at position `k` of a switch layer: on from off while the parameter is set, and
/// back while it is not.
pub open spec fn switch_transition(parameter: ParameterRef, k: int) -> (
    TransitionSource,
    TransitionTarget,
    Seq<ConditionOutline>,
) {
    if k == 0 {
        (TransitionSource::State(0), TransitionTarget::State(1), seq![ConditionOutline::If(parameter)])
    } else {
        (TransitionSource::State(1), TransitionTarget::State(0), seq![ConditionOutline::IfNot(parameter)])
    }
}

fn copy_parameter(parameter: &ParameterRef) -> (copy: ParameterRef)
    ensures
        copy == *parameter,
{
    Resolved { value: parameter.value.clone(), context: parameter.context }
}

fn transition(from: TransitionSource, to: TransitionTarget, condition: ConditionOutline) -> (made:
    TransitionOutline)
    ensures
        made@ == (from, to, seq![condition]),
{
    let conditions = vec![condition];
    assert(conditions@ =~= seq![condition]);
    TransitionOutline { from, to, conditions }
}

/// The transitions of a group layer whose parameter is `parameter`, with `options` options besides
/// the default state.
pub fn group_transitions(parameter: &ParameterRef, options: usize, symmetric: bool) -> (transitions: Vec<
    TransitionOutline,
>)
    requires
        options < 0x7fff_ffff_ffff_ffff,
    ensures
        transitions@.len() == group_transition_count(options as nat, symmetric),
        forall|k: int|
            0 <= k < transitions@.len() ==> #[trigger] transitions@[k]@ == group_transition(
                *parameter,
                options as nat,
                symmetric,
                k,
            ),
{
    let ghost n = options as nat;
    let mut transitions: Vec<TransitionOutline> = Vec::new();
    let mut index: usize = 0;
    while index < options
        invariant
            index <= options,
            options < 0x7fff_ffff_ffff_ffff,
            n == options,
            transitions@.len() == if symmetric {
                index as int
            } else {
                2 * index
            },
            forall|k: int|
                0 <= k < transitions@.len() ==> #[trigger] transitions@[k]@ == group_transition(
                    *parameter,
                    n,
                    symmetric,
                    k,
                ),
        decreases options - index,
    {
        index = index + 1;
        let value = index as i64;
        if symmetric {
            let entering = transition(
                TransitionSource::Entry,
                TransitionTarget::State(index),
                ConditionOutline::Equals(copy_parameter(parameter), value),
            );
            transitions.push(entering);
        } else {
            let entering = transition(
                TransitionSource::State(0),
                TransitionTarget::State(index),
                ConditionOutline::Equals(copy_parameter(parameter), value),
            );
            transitions.push(entering);
            assert((2 * (index - 1)) / 2 + 1 == index) by (nonlinear_arith)
                requires
                    index >= 1,
            ;
            let leaving = transition(
                TransitionSource::State(index),
                TransitionTarget::State(0),
                ConditionOutline::NotEqual(copy_parameter(parameter), value),
            );
            transitions.push(leaving);
            assert((2 * (index - 1) + 1) / 2 + 1 == index) by (nonlinear_arith)
                requires
                    index >= 1,
            ;
            assert((2 * (index - 1) + 1) % 2 == 1) by (nonlinear_arith)
                requires
                    index >= 1,
            ;
            assert((2 * (index - 1)) % 2 == 0) by (nonlinear_arith)
                requires
                    index >= 1,
            ;
        }
    }
    if symmetric {
        let mut index: usize = 0;
        while index < options
            invariant
                index <= options,
                options < 0x7fff_ffff_ffff_ffff,
                n == options,
                symmetric,
                transitions@.len() == n + index,
                forall|k: int|
                    0 <= k < transitions@.len() ==> #[trigger] transitions@[k]@ == group_transition(
                        *parameter,
                        n,
                        symmetric,
                        k,
                    ),
            decreases options - index,
        {
            index = index + 1;
            let value = index as i64;
            let leaving = transition(
                TransitionSource::State(index),
                TransitionTarget::Exit,
                ConditionOutline::NotEqual(copy_parameter(parameter), value),
            );
            transitions.push(leaving);
        }
        let mut index: usize = 0;
        while index < options
            invariant
                index <= options,
                options < 0x7fff_ffff_ffff_ffff,
                n == options,
                symmetric,
                transitions@.len() == 2 * n + index,
                forall|k: int|
                    0 <= k < transitions@.len() ==> #[trigger] transitions@[k]@ == group_transition(
                        *parameter,
                        n,
                        symmetric,
                        k,
                    ),
            decreases options - index,
        {
            index = index + 1;
            let value = index as i64;
            let leaving = transition(
                TransitionSource::State(0),
                TransitionTarget::Exit,
                ConditionOutline::Equals(copy_parameter(parameter), value),
            );
            transitions.push(leaving);
        }
    }
    transitions
}

/// The two transitions of a switch layer whose bool parameter is `parameter`.
pub fn switch_transitions(parameter: &ParameterRef) -> (transitions: Vec<TransitionOutline>)
    ensures
        transitions@.len() == 2,
        forall|k: int| 0 <= k < 2 ==> #[trigger] transitions@[k]@ == switch_transition(*parameter, k),
{
    let on = transition(
        TransitionSource::State(0),
        TransitionTarget::State(1),
        ConditionOutline::If(copy_parameter(parameter)),
    );
    let off = transition(
        TransitionSource::State(1),
        TransitionTarget::State(0),
        ConditionOutline::IfNot(copy_parameter(parameter)),
    );
    let transitions = vec![on, off];
    assert(transitions@[0] == on);
    transitions
}

/// The position of the first entry that cannot be zeroed, if one cannot.
pub open spec fn first_unzeroable<E: MaybeZeroableEntry>(entries: Seq<E>) -> Option<int> {
    if exists|i: int| 0 <= i < entries.len() && entries[i].spec_zeroed() is None {
        Some(
            choose|i: int|
                0 <= i < entries.len() && entries[i].spec_zeroed() is None && forall|j: int|
                    0 <= j < i ==> entries[j].spec_zeroed() is Some,
        )
    } else {
        None
    }
}

/// The disabled side of a toggle: every entry of `content` zeroed, or the key of the first entry,
/// in key order, that cannot be zeroed.
pub fn toggle_off<E: MaybeZeroableEntry>(content: &ValueSet<E>) -> (result: Result<ValueSet<E>, E::Key>)
    ensures
        match first_unzeroable(content.ordered()) {
            Some(i) => result == Err::<ValueSet<E>, E::Key>(content.ordered()[i].spec_key()),
            None => result matches Ok(off) && off.contents() == fill_replacing(
                Map::<int, E>::empty(),
                zeroed_list(content.ordered()),
            ),
        },
{
    let entries = content.entries();
    let ghost all = content.ordered();
    let mut off: ValueSet<E> = ValueSet::new();
    let mut i: usize = 0;
    assert(all.take(0) =~= Seq::<E>::empty());
    while i < entries.len()
        invariant
            entries@ == all,
            all == content.ordered(),
            i <= all.len(),
            forall|j: int| 0 <= j < i ==> (#[trigger] all[j]).spec_zeroed() is Some,
            off.contents() == fill_replacing(Map::<int, E>::empty(), zeroed_list(all.take(i as int))),
        decreases all.len() - i,
    {
        let entry = &entries[i];
        assert(all.take(i + 1).drop_last() =~= all.take(i as int));
        assert(all.take(i + 1).last() == *entry);
        match entry.zeroed() {
            Some(zeroed) => {
                let ghost before = zeroed_list(all.take(i as int));
                assert(zeroed_list(all.take(i + 1)) == before + seq![zeroed]);
                assert((before + seq![zeroed]).drop_last() =~= before);
                off.insert(zeroed);
            },
            None => {
                proof {
                    assert(all[i as int].spec_zeroed() is None);
                    assert(exists|k: int| 0 <= k < all.len() && all[k].spec_zeroed() is None);
                    let first = choose|k: int|
                        0 <= k < all.len() && all[k].spec_zeroed() is None && forall|j: int|
                            0 <= j < k ==> all[j].spec_zeroed() is Some;
                    assert(0 <= i < all.len() && all[i as int].spec_zeroed() is None && forall|j: int|
                        0 <= j < i ==> all[j].spec_zeroed() is Some);
                    assert(first == i) by {
                        if first < i {
                            assert(all[first].spec_zeroed() is Some);
                        } else if first > i {
                            assert(all[i as int].spec_zeroed() is Some);
                        }
                    }
                    assert(first_unzeroable(all) == Some(i as int));
                }
                return Err(entry.key());
            },
        }
        i = i + 1;
    }
    assert(all.take(i as int) =~= all);
    Ok(off)
}

/// Zeroing an entry keeps its key.
pub open spec fn zeroing_keeps_keys<E: MaybeZeroableEntry>(entries: Seq<E>) -> bool {
    forall|i: int|
        0 <= i < entries.len() ==> ((#[trigger] entries[i]).spec_zeroed() matches Some(zeroed) ==> rank_of(zeroed)
            == rank_of(entries[i]))
}

/// What a group's default state starts from: the written default, or nothing.
pub open spec fn written_default<E: MaybeZeroableEntry>(default: Option<ValueSet<E>>) -> Map<int, E> {
    match default {
        Some(set) => set.contents(),
        None => Map::<int, E>::empty(),
    }
}

proof fn lemma_entry_of_a_set_is_among_all<E: MaybeZeroableEntry>(sets: Seq<ValueSet<E>>, i: int, j: int)
    requires
        0 <= i < sets.len(),
        0 <= j < sets[i].ordered().len(),
    ensures
        exists|k: int| 0 <= k < all_entries(sets).len() && all_entries(sets)[k] == sets[i].ordered()[j],
    decreases sets.len(),
{
    let front = sets.drop_last();
    let before = all_entries(front);
    if i == sets.len() - 1 {
        let k = before.len() + j;
        assert(all_entries(sets)[k] == sets[i].ordered()[j]);
    } else {
        assert(front[i] == sets[i]);
        lemma_entry_of_a_set_is_among_all(front, i, j);
        let k = choose|k: int| 0 <= k < before.len() && before[k] == front[i].ordered()[j];
        assert(all_entries(sets)[k] == before[k]);
    }
}

proof fn lemma_covered_entries_have_no_orphans<E: MaybeZeroableEntry>(own: Seq<E>, defaults: Map<int, E>)
    requires
        forall|j: int| 0 <= j < own.len() ==> defaults.contains_key(rank_of(#[trigger] own[j])),
    ensures
        orphan_keys(own, defaults).len() == 0,
    decreases own.len(),
{
    if own.len() > 0 {
        let front = own.drop_last();
        assert forall|j: int| 0 <= j < front.len() implies defaults.contains_key(rank_of(#[trigger] front[j])) by {
            assert(front[j] == own[j]);
        }
        lemma_covered_entries_have_no_orphans(front, defaults);
        assert(defaults.contains_key(rank_of(own[own.len() - 1])));
    }
}

/// The default state of a group after zero filling: the written default, with the zeroed value
/// of everything an option animates and the default does not.
pub open spec fn filled_default<E: MaybeZeroableEntry>(default: Option<ValueSet<E>>, options: Seq<ValueSet<E>>) -> Map<
    int,
    E,
> {
    fill(written_default(default), zeroed_list(all_entries(options)))
}

/// The keys that an option animates, that cannot be zeroed, and that the default does not write.
pub open spec fn keys_needing_default<E: MaybeZeroableEntry>(
    default: Option<ValueSet<E>>,
    options: Seq<ValueSet<E>>,
) -> Seq<E::Key> {
    missing_keys(written_default(default), all_entries(options))
}

/// `states` are the states of a group with this default and these options: the filled default
/// first, then each option filled with the default's value of everything it does not animate.
pub open spec fn are_group_states<E: MaybeZeroableEntry>(
    states: Seq<ValueSet<E>>,
    default: Option<ValueSet<E>>,
    options: Seq<ValueSet<E>>,
) -> bool {
    &&& states.len() == options.len() + 1
    &&& states[0].contents() == filled_default(default, options)
    &&& forall|i: int|
        0 <= i < options.len() ==> (#[trigger] states[i + 1]).contents() == states[0].contents().union_prefer_right(
            options[i].contents(),
        )
}

/// The contents of the states of a group layer: the default, filled with the zeroed value of
/// everything an option animates and the default does not, and then each option, filled with the
/// default's value of everything it does not animate itself. When an option animates something
/// that cannot be zeroed and the default does not write, those keys are the error. Every state
/// animates the same keys.
pub fn group_states<E: MaybeZeroableEntry>(default: Option<ValueSet<E>>, options: Vec<ValueSet<E>>) -> (result:
    Result<Vec<ValueSet<E>>, Vec<E::Key>>)
    requires
        zeroing_keeps_keys(all_entries(options@)),
    ensures
        keys_needing_default(default, options@).len() > 0 ==> (result matches Err(keys) && keys@
            == keys_needing_default(default, options@)),
        keys_needing_default(default, options@).len() == 0 ==> (result matches Ok(states) && are_group_states(
            states@,
            default,
            options@,
        )),
        result matches Ok(states) ==> forall|i: int|
            0 <= i < states@.len() ==> (#[trigger] states@[i]).contents().dom() == states@[0].contents().dom(),
{
    let ghost all = options@;
    let ghost items = all_entries(all);
    let mut filled = match default {
        Some(set) => set,
        None => ValueSet::new(),
    };
    match filled.union_fill_as_zero(options.as_slice()) {
        Err(keys) => return Err(keys),
        Ok(()) => {},
    }
    proof {
        law_fill_as_zero_covers_every_key(written_default(default), items);
    }
    let ghost merged = filled.contents();
    let mut rest = options;
    let count = rest.len();
    let mut merged_options: Vec<ValueSet<E>> = Vec::new();
    let mut i: usize = 0;
    assert(all.skip(0) =~= all);
    while rest.len() > 0
        invariant
            i <= count == all.len(),
            rest@ == all.skip(i as int),
            filled.contents() == merged,
            forall|k: int| 0 <= k < items.len() ==> merged.contains_key(rank_of(#[trigger] items[k])),
            items == all_entries(all),
            merged_options@.len() == i,
            forall|k: int|
                0 <= k < i ==> (#[trigger] merged_options@[k]).contents() == merged.union_prefer_right(
                    all[k].contents(),
                ),
            forall|k: int| 0 <= k < i ==> (#[trigger] merged_options@[k]).contents().dom() == merged.dom(),
        decreases rest@.len(),
    {
        let mut content = rest.remove(0);
        assert(content == all[i as int]);
        proof {
            assert forall|j: int| 0 <= j < content.ordered().len() implies merged.contains_key(
                rank_of(#[trigger] content.ordered()[j]),
            ) by {
                lemma_entry_of_a_set_is_among_all(all, i as int, j);
                let k = choose|k: int| 0 <= k < items.len() && items[k] == all[i as int].ordered()[j];
                assert(merged.contains_key(rank_of(items[k])));
            }
            lemma_covered_entries_have_no_orphans(content.ordered(), merged);
            law_defaults_merge_has_the_keys_of_the_defaults(content.ordered(), merged);
        }
        let outcome = content.union_from_defaults(&filled);
        assert(outcome is Ok);
        merged_options.push(content);
        i = i + 1;
        assert(rest@ =~= all.skip(i as int));
    }
    let mut states: Vec<ValueSet<E>> = Vec::new();
    states.push(filled);
    let ghost tail = merged_options@;
    states.append(&mut merged_options);
    assert forall|k: int| 0 <= k < all.len() implies (#[trigger] states@[k + 1]).contents() == states@[0].contents().union_prefer_right(
        all[k].contents(),
    ) by {
        assert(states@[k + 1] == tail[k]);
    }
    assert forall|k: int| 0 <= k < states@.len() implies (#[trigger] states@[k]).contents().dom() == states@[0].contents().dom() by {
        if k > 0 {
            assert(states@[k] == tail[k - 1]);
        }
    }
    Ok(states)
}

/// The states and transitions of a group or switch layer, with the parameter they follow.
#[derive(Debug, PartialEq)]
pub struct StateGraph<E: MaybeZeroableEntry> {
    pub parameter: ParameterRef,
    pub states: Vec<ValueSet<E>>,
    pub transitions: Vec<TransitionOutline>,
}

/// Why the states of a layer could not be built.
#[derive(Debug, PartialEq)]
pub enum GraphError<K> {
    /// The layer's parameter does not resolve to one of the right type.
    Parameter(TransformError),
    /// Options animate these keys, which cannot be zeroed and which the default does not write.
    NeedsDefault(Vec<K>),
    /// A toggle animates this key, which cannot be zeroed for the disabled side.
    NeedsBothSides(K),
}

/// The transitions of a group layer with `options` options.
pub open spec fn are_group_transitions(
    transitions: Seq<TransitionOutline>,
    parameter: ParameterRef,
    options: nat,
    symmetric: bool,
) -> bool {
    &&& transitions.len() == group_transition_count(options, symmetric)
    &&& forall|k: int|
        0 <= k < transitions.len() ==> #[trigger] transitions[k]@ == group_transition(parameter, options, symmetric, k)
}

/// Builds a group layer that follows the int parameter `reference`: the parameter is resolved
/// first, then the states are filled, and the transitions select option `i` by the value `i`.
/// Unless told otherwise, the group is symmetric.
pub fn group_graph<E: MaybeZeroableEntry>(
    parameters: &ParameterTable,
    reference: &Unresolved<String>,
    default: Option<ValueSet<E>>,
    options: Vec<ValueSet<E>>,
    symmetric: Option<bool>,
) -> (result: Result<StateGraph<E>, GraphError<E::Key>>)
    requires
        parameters.wf(),
        zeroing_keeps_keys(all_entries(options@)),
        options@.len() < 0x7fff_ffff_ffff_ffff,
    ensures
        match typed_resolution(parameters.entries(), *reference, AnimatedValueType::Int) {
            Err(error) => result == Err::<StateGraph<E>, GraphError<E::Key>>(GraphError::Parameter(error)),
            Ok(parameter) => if keys_needing_default(default, options@).len() > 0 {
                result matches Err(GraphError::NeedsDefault(keys)) && keys@ == keys_needing_default(
                    default,
                    options@,
                )
            } else {
                result matches Ok(graph) && graph.parameter == parameter && are_group_states(
                    graph.states@,
                    default,
                    options@,
                ) && are_group_transitions(
                    graph.transitions@,
                    parameter,
                    options@.len(),
                    symmetric.unwrap_or(true),
                )
            },
        },
{
    let parameter = match parameters.resolve_typed(reference, AnimatedValueType::Int) {
        Ok(parameter) => parameter,
        Err(error) => return Err(GraphError::Parameter(error)),
    };
    let count = options.len();
    let states = match group_states(default, options) {
        Ok(states) => states,
        Err(keys) => return Err(GraphError::NeedsDefault(keys)),
    };
    let symmetric = match symmetric {
        Some(symmetric) => symmetric,
        None => true,
    };
    let transitions = group_transitions(&parameter, count, symmetric);
    Ok(StateGraph { parameter, states, transitions })
}

/// What a switch layer animates: a toggle, whose disabled side is every value zeroed, or both
/// sides written out.
#[derive(Debug, PartialEq)]
pub enum SwitchContentOutline<E: MaybeZeroableEntry> {
    Toggle(ValueSet<E>),
    Sides { off: ValueSet<E>, on: ValueSet<E> },
}

/// Builds a switch layer that follows the bool parameter `reference`: state 0 is the disabled
/// side and state 1 the enabled one. The parameter is resolved before the toggle is zeroed.
pub fn switch_graph<E: MaybeZeroableEntry>(
    parameters: &ParameterTable,
    reference: &Unresolved<String>,
    content: SwitchContentOutline<E>,
) -> (result: Result<StateGraph<E>, GraphError<E::Key>>)
    requires
        parameters.wf(),
    ensures
        match typed_resolution(parameters.entries(), *reference, AnimatedValueType::Bool) {
            Err(error) => result == Err::<StateGraph<E>, GraphError<E::Key>>(GraphError::Parameter(error)),
            Ok(parameter) => match content {
                SwitchContentOutline::Toggle(on) => match first_unzeroable(on.ordered()) {
                    Some(i) => result == Err::<StateGraph<E>, GraphError<E::Key>>(
                        GraphError::NeedsBothSides(on.ordered()[i].spec_key()),
                    ),
                    None => result matches Ok(graph) && graph.parameter == parameter && graph.states@.len() == 2
                        && graph.states@[0].contents() == fill_replacing(
                        Map::<int, E>::empty(),
                        zeroed_list(on.ordered()),
                    ) && graph.states@[1] == on && graph.transitions@.len() == 2 && forall|k: int|
                        0 <= k < 2 ==> #[trigger] graph.transitions@[k]@ == switch_transition(parameter, k),
                },
                SwitchContentOutline::Sides { off, on } => result matches Ok(graph) && graph.parameter
                    == parameter && graph.states@ == seq![off, on] && graph.transitions@.len() == 2 && forall|
                    k: int,
                | 0 <= k < 2 ==> #[trigger] graph.transitions@[k]@ == switch_transition(parameter, k),
            },
        },
{
    let parameter = match parameters.resolve_typed(reference, AnimatedValueType::Bool) {
        Ok(parameter) => parameter,
        Err(error) => return Err(GraphError::Parameter(error)),
    };
    let (off, on) = match content {
        SwitchContentOutline::Toggle(on) => match toggle_off(&on) {
            Ok(off) => (off, on),
            Err(key) => return Err(GraphError::NeedsBothSides(key)),
        },
        SwitchContentOutline::Sides { off, on } => (off, on),
    };
    let transitions = switch_transitions(&parameter);
    let states = vec![off, on];
    Ok(StateGraph { parameter, states, transitions })
}

/// In a group layer, the state of option `i` is entered exactly when the parameter has the value
/// `i`, and left exactly when it has another: some transition enters it on that value, every
/// transition that enters it asks for that value, and every transition that leaves it asks for
/// any other value.
pub proof fn law_group_options_follow_their_values(parameter: ParameterRef, options: nat, symmetric: bool, i: int)
    requires
        1 <= i <= options,
        options < 0x7fff_ffff_ffff_ffff,
        options <= usize::MAX,
    ensures
        exists|k: int|
            0 <= k < group_transition_count(options, symmetric) && (#[trigger] group_transition(
                parameter,
                options,
                symmetric,
                k,
            )).1 == TransitionTarget::State(i as usize) && group_transition(parameter, options, symmetric, k).2
                == seq![ConditionOutline::Equals(parameter, i as i64)],
        forall|k: int|
            0 <= k < group_transition_count(options, symmetric) && (#[trigger] group_transition(
                parameter,
                options,
                symmetric,
                k,
            )).1 == TransitionTarget::State(i as usize) ==> group_transition(parameter, options, symmetric, k).2
                == seq![ConditionOutline::Equals(parameter, i as i64)],
        forall|k: int|
            0 <= k < group_transition_count(options, symmetric) && (#[trigger] group_transition(
                parameter,
                options,
                symmetric,
                k,
            )).0 == TransitionSource::State(i as usize) ==> group_transition(parameter, options, symmetric, k).2
                == seq![ConditionOutline::NotEqual(parameter, i as i64)],
{
    let k = if symmetric {
        i - 1
    } else {
        2 * (i - 1)
    };
    assert((2 * (i - 1)) / 2 + 1 == i && (2 * (i - 1)) % 2 == 0) by (nonlinear_arith)
        requires
            i >= 1,
    ;
    assert(group_transition(parameter, options, symmetric, k).1 == TransitionTarget::State(i as usize));
    assert forall|k: int|
        0 <= k < group_transition_count(options, symmetric) && (#[trigger] group_transition(
            parameter,
            options,
            symmetric,
            k,
        )).1 == TransitionTarget::State(i as usize) implies group_transition(parameter, options, symmetric, k).2
        == seq![ConditionOutline::Equals(parameter, i as i64)] by {
        if !symmetric {
            assert(k % 2 == 0 ==> (k / 2 + 1 <= options)) by (nonlinear_arith)
                requires
                    0 <= k < 2 * options,
            ;
        }
    }
    assert forall|k: int|
        0 <= k < group_transition_count(options, symmetric) && (#[trigger] group_transition(
            parameter,
            options,
            symmetric,
            k,
        )).0 == TransitionSource::State(i as usize) implies group_transition(parameter, options, symmetric, k).2
        == seq![ConditionOutline::NotEqual(parameter, i as i64)] by {
        if !symmetric {
            assert(k / 2 + 1 <= options) by (nonlinear_arith)
                requires
                    0 <= k < 2 * options,
            ;
        }
    }
}

/// The disabled side of a toggle animates exactly what the enabled side animates, when every
/// entry can be zeroed and zeroing keeps the key.
pub proof fn law_toggle_sides_animate_the_same_targets<E: MaybeZeroableEntry>(entries: Seq<E>)
    requires
        zeroing_keeps_keys(entries),
        first_unzeroable(entries) is None,
    ensures
        fill_replacing(Map::<int, E>::empty(), zeroed_list(entries)).dom() == contents_of(entries).dom(),
    decreases entries.len(),
{
    if entries.len() == 0 {
        assert(contents_of(entries).dom() =~= Set::<int>::empty());
    } else {
        let front = entries.drop_last();
        let last = entries.last();
        assert forall|i: int| 0 <= i < front.len() implies ((#[trigger] front[i]).spec_zeroed() matches Some(
            zeroed,
        ) ==> rank_of(zeroed) == rank_of(front[i])) by {
            assert(front[i] == entries[i]);
        }
        assert(first_unzeroable(front) is None) by {
            if exists|i: int| 0 <= i < front.len() && front[i].spec_zeroed() is None {
                let i = choose|i: int| 0 <= i < front.len() && front[i].spec_zeroed() is None;
                assert(entries[i] == front[i]);
            }
        }
        law_toggle_sides_animate_the_same_targets(front);
        assert(entries[entries.len() - 1].spec_zeroed() is Some);
        let zeroed = last.spec_zeroed()->Some_0;
        let before = zeroed_list(front);
        assert(zeroed_list(entries) == before + seq![zeroed]);
        assert((before + seq![zeroed]).drop_last() =~= before);
        assert(rank_of(zeroed) == rank_of(entries[entries.len() - 1]));
        assert forall|r: int| contents_of(entries).dom().contains(r) == contents_of(front).dom().insert(
            rank_of(last),
        ).contains(r) by {
            if contents_of(entries).dom().contains(r) {
                let i = choose|i: int| 0 <= i < entries.len() && rank_of(entries[i]) == r;
                if i < front.len() {
                    assert(front[i] == entries[i]);
                }
            }
            if contents_of(front).dom().contains(r) {
                let i = choose|i: int| 0 <= i < front.len() && rank_of(front[i]) == r;
                assert(entries[i] == front[i]);
            }
        }
        assert(fill_replacing(Map::<int, E>::empty(), zeroed_list(entries)).dom() =~= contents_of(entries).dom());
    }
}

/// What a switch layer named `layer`, written at `at`, reports when its toggle list animates
/// `target`, the target of the key in `GraphError::NeedsBothSides`: it cannot be zeroed for the
/// disabled side.
pub fn toggle_needs_both_sides(layer: &String, target: &AnimatedTarget<Declared>, at: &Option<SourceLocation>) -> (error:
    TransformError)
    ensures
        error.at == *at,
        error.kind matches TransformErrorKind::ToggleNeedsBothSides { layer: name, target: text } && name == *layer
            && text@ == description(*target),
{
    TransformErrorKind::ToggleNeedsBothSides { layer: layer.clone(), target: describe(target) }.at(
        duplicate_location(at),
    )
}

/// What a group layer named `layer`, written at `at`, reports when its options animate `targets`,
/// the targets of the keys in `GraphError::NeedsDefault`: they cannot be zeroed and the default
/// does not write them.
pub fn options_need_default(layer: &String, targets: &[AnimatedTarget<Declared>], at: &Option<SourceLocation>) -> (error:
    TransformError)
    ensures
        error.at == *at,
        error.kind matches TransformErrorKind::OptionsNeedDefault { layer: name, targets: text } && name == *layer
            && text@ == joined(targets@.map_values(|target: AnimatedTarget<Declared>| description(target))),
{
    TransformErrorKind::OptionsNeedDefault { layer: layer.clone(), targets: describe_all(targets) }.at(
        duplicate_location(at),
    )
}

} // verus!
