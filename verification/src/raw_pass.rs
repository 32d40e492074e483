//! The checks of a raw layer, whose states and transitions are written out by hand: state names
//! are unique, every reference to a state names one, and every condition compares its parameter in
//! a way the animator supports for the parameter's type.
use vstd::prelude::*;

use crate::animated_wire::{WireValue, ONE_BITS};
use crate::parameters::{resolution, typed_resolution, ParameterEntry, ParameterRef, ParameterTable};
use crate::resolution::{duplicate_location, SourceLocation, Unresolved};
use crate::state_graph::ConditionOutline;
use crate::transform_error::{TransformError, TransformErrorKind};
use crate::value::AnimatedValueType;

verus! {

/// The name of a state of a raw layer, with where it was written.
#[derive(Debug, Clone, PartialEq)]
pub struct StateName {
    pub name: String,
    pub at: Option<SourceLocation>,
}

/// The position of the first value that repeats an earlier one.
pub open spec fn first_repeat<T>(names: Seq<T>) -> Option<int>
    decreases names.len(),
{
    if names.len() == 0 {
        None
    } else {
        match first_repeat(names.drop_last()) {
            Some(j) => Some(j),
            None => if names.drop_last().contains(names.last()) {
                Some(names.len() - 1)
            } else {
                None
            },
        }
    }
}

/// The position of `name` among `names`.
pub open spec fn state_position(names: Seq<Seq<char>>, name: Seq<char>) -> Option<int> {
    if names.contains(name) {
        Some(choose|i: int| 0 <= i < names.len() && names[i] == name)
    } else {
        None
    }
}

/// The names of written states.
pub open spec fn state_names(states: Seq<StateName>) -> Seq<Seq<char>> {
    states.map_values(|state: StateName| state.name@)
}

/// The states of a raw layer by name, each at its position.
#[derive(Debug, Clone)]
pub struct StateIndex {
    names: Vec<String>,
}

pub(crate) proof fn lemma_first_repeat_of_prefix<T>(names: Seq<T>, k: int)
    requires
        0 <= k <= names.len(),
        first_repeat(names.take(k)) is Some,
    ensures
        first_repeat(names) == first_repeat(names.take(k)),
    decreases names.len(),
{
    if k == names.len() {
        assert(names.take(k) =~= names);
    } else {
        let front = names.drop_last();
        assert(front.take(k) =~= names.take(k));
        lemma_first_repeat_of_prefix(front, k);
    }
}

/// Values with no repeat are distinct.
pub(crate) proof fn lemma_no_repeat_distinct<T>(names: Seq<T>, a: int, b: int)
    requires
        first_repeat(names) is None,
        0 <= a < names.len(),
        0 <= b < names.len(),
        a != b,
    ensures
        names[a] != names[b],
    decreases names.len(),
{
    let front = names.drop_last();
    let last = names.len() - 1;
    if a < last && b < last {
        assert(front[a] == names[a] && front[b] == names[b]);
        lemma_no_repeat_distinct(front, a, b);
    } else if a == last {
        assert(!front.contains(names.last()));
        assert(front[b] == names[b]);
    } else {
        assert(!front.contains(names.last()));
        assert(front[a] == names[a]);
    }
}

/// Distinct values have no repeat.
pub(crate) proof fn lemma_distinct_no_repeat<T>(names: Seq<T>)
    requires
        forall|a: int, b: int| 0 <= a < b < names.len() ==> names[a] != names[b],
    ensures
        first_repeat(names) is None,
    decreases names.len(),
{
    if names.len() > 0 {
        let front = names.drop_last();
        assert forall|a: int, b: int| 0 <= a < b < front.len() implies front[a] != front[b] by {
            assert(front[a] == names[a] && front[b] == names[b]);
        }
        lemma_distinct_no_repeat(front);
        assert(!front.contains(names.last())) by {
            if front.contains(names.last()) {
                let a = choose|a: int| 0 <= a < front.len() && front[a] == names.last();
                assert(names[a] == names[names.len() - 1]);
            }
        }
    }
}

impl StateIndex {
    /// No two states share a name.
    pub closed spec fn wf(&self) -> bool {
        forall|i: int, j: int|
            0 <= i < j < self.names@.len() ==> #[trigger] self.names@[i]@ != #[trigger] self.names@[j]@
    }

    /// The state names in order.
    pub closed spec fn names(&self) -> Seq<Seq<char>> {
        self.names@.map_values(|name: String| name@)
    }

    /// Indexes the states of the raw layer `layer`; a name written twice is an error at its second
    /// place.
    pub fn new(layer: &String, states: &[StateName]) -> (result: Result<StateIndex, TransformError>)
        ensures
            match first_repeat(state_names(states@)) {
                Some(j) => result == Err::<StateIndex, TransformError>(
                    TransformError {
                        at: states@[j].at,
                        kind: TransformErrorKind::DuplicateState { layer: *layer, state: states@[j].name },
                    },
                ),
                None => result matches Ok(index) && index.wf() && index.names() == state_names(states@),
            },
    {
        let ghost all = state_names(states@);
        let mut index = StateIndex { names: Vec::new() };
        let mut i: usize = 0;
        while i < states.len()
            invariant
                i <= states@.len(),
                all == state_names(states@),
                index.wf(),
                index.names() == all.take(i as int),
                first_repeat(all.take(i as int)) is None,
            decreases states@.len() - i,
        {
            let state = &states[i];
            let ghost before = all.take(i as int);
            assert(all.take(i + 1).drop_last() =~= before);
            assert(all.take(i + 1).last() == state.name@);
            match index.position(&state.name) {
                Some(_) => {
                    proof {
                        assert(before.contains(state.name@));
                        assert(first_repeat(all.take(i + 1)) == Some(i as int));
                        lemma_first_repeat_of_prefix(all, i + 1);
                    }
                    return Err(
                        TransformErrorKind::DuplicateState { layer: layer.clone(), state: state.name.clone() }.at(
                            duplicate_location(&state.at),
                        ),
                    );
                },
                None => {
                    let ghost previous = index.names@;
                    index.names.push(state.name.clone());
                    assert(index.names() =~= all.take(i + 1));
                    assert forall|a: int, b: int|
                        0 <= a < b < index.names@.len() implies #[trigger] index.names@[a]@
                        != #[trigger] index.names@[b]@ by {
                        if b == previous.len() {
                            assert(before[a] == previous[a]@);
                        } else {
                            assert(index.names@[a] == previous[a] && index.names@[b] == previous[b]);
                        }
                    }
                },
            }
            i = i + 1;
        }
        assert(all.take(i as int) =~= all);
        Ok(index)
    }

    fn position(&self, name: &String) -> (found: Option<usize>)
        requires
            self.wf(),
        ensures
            match found {
                Some(i) => i < self.names().len() && state_position(self.names(), name@) == Some(i as int),
                None => !self.names().contains(name@) && state_position(self.names(), name@) is None,
            },
    {
        let ghost names = self.names();
        let mut i: usize = 0;
        while i < self.names.len()
            invariant
                i <= names.len(),
                names == self.names(),
                self.wf(),
                forall|j: int| 0 <= j < i ==> names[j] != name@,
            decreases names.len() - i,
        {
            if self.names[i] == *name {
                proof {
                    assert(names[i as int] == name@);
                    let chosen = choose|k: int| 0 <= k < names.len() && names[k] == name@;
                    assert(chosen == i) by {
                        if chosen != i {
                            if chosen < i {
                                assert(self.names@[chosen]@ != self.names@[i as int]@);
                            } else {
                                assert(self.names@[i as int]@ != self.names@[chosen]@);
                            }
                        }
                    }
                }
                return Some(i);
            }
            i = i + 1;
        }
        None
    }

    /// The position of the state `reference` names in the raw layer `layer`, or that it has none.
    pub fn lookup(&self, layer: &String, reference: &Unresolved<String>) -> (result: Result<usize, TransformError>)
        requires
            self.wf(),
        ensures
            result == match state_position(self.names(), reference.value@) {
                Some(i) => Ok::<usize, TransformError>(i as usize),
                None => Err(
                    TransformError {
                        at: reference.at,
                        kind: TransformErrorKind::UnknownState { layer: *layer, state: reference.value },
                    },
                ),
            },
            result matches Ok(i) ==> i < self.names().len(),
    {
        match self.position(&reference.value) {
            Some(i) => Ok(i),
            None => Err(
                TransformErrorKind::UnknownState { layer: layer.clone(), state: reference.value.clone() }.at(
                    duplicate_location(&reference.at),
                ),
            ),
        }
    }

    /// The state a raw layer starts in: the one written, or else the first state, if it has any.
    pub fn default_state(&self, layer: &String, written: &Option<Unresolved<String>>) -> (result: Result<
        Option<usize>,
        TransformError,
    >)
        requires
            self.wf(),
        ensures
            result == match written {
                Some(reference) => match state_position(self.names(), reference.value@) {
                    Some(i) => Ok::<Option<usize>, TransformError>(Some(i as usize)),
                    None => Err(
                        TransformError {
                            at: reference.at,
                            kind: TransformErrorKind::UnknownState { layer: *layer, state: reference.value },
                        },
                    ),
                },
                None => Ok(
                    if self.names().len() > 0 {
                        Some(0usize)
                    } else {
                        None
                    },
                ),
            },
    {
        match written {
            Some(reference) => match self.lookup(layer, reference) {
                Ok(i) => Ok(Some(i)),
                Err(error) => Err(error),
            },
            None => Ok(
                if self.names.len() > 0 {
                    Some(0)
                } else {
                    None
                },
            ),
        }
    }
}

/// A condition as written in a raw layer, with the type of the value it compares against where
/// it has one.
#[derive(Debug, Clone, PartialEq)]
pub enum WrittenCondition {
    /// The parameter is false or zero.
    Zero(Unresolved<String>),
    /// The parameter is true or not zero.
    NonZero(Unresolved<String>),
    Eq(Unresolved<String>, AnimatedValueType),
    Ne(Unresolved<String>, AnimatedValueType),
    Gt(Unresolved<String>, AnimatedValueType),
    Lt(Unresolved<String>, AnimatedValueType),
}

impl WrittenCondition {
    pub open spec fn spec_parameter(&self) -> Unresolved<String> {
        match self {
            WrittenCondition::Zero(parameter) => *parameter,
            WrittenCondition::NonZero(parameter) => *parameter,
            WrittenCondition::Eq(parameter, _) => *parameter,
            WrittenCondition::Ne(parameter, _) => *parameter,
            WrittenCondition::Gt(parameter, _) => *parameter,
            WrittenCondition::Lt(parameter, _) => *parameter,
        }
    }

    /// The parameter the condition compares.
    pub fn parameter(&self) -> (parameter: &Unresolved<String>)
        ensures
            *parameter == self.spec_parameter(),
    {
        match self {
            WrittenCondition::Zero(parameter) | WrittenCondition::NonZero(parameter) => parameter,
            WrittenCondition::Eq(parameter, _) | WrittenCondition::Ne(parameter, _) => parameter,
            WrittenCondition::Gt(parameter, _) | WrittenCondition::Lt(parameter, _) => parameter,
        }
    }
}

/// The name a script uses for a kind of condition.
pub open spec fn condition_word(condition: WrittenCondition) -> &'static str {
    match condition {
        WrittenCondition::Zero(_) => "zero",
        WrittenCondition::NonZero(_) => "nonzero",
        WrittenCondition::Eq(..) => "eq",
        WrittenCondition::Ne(..) => "ne",
        WrittenCondition::Gt(..) => "gt",
        WrittenCondition::Lt(..) => "lt",
    }
}

/// The animator condition a written condition becomes, where its written value still has to be
/// read in the type the comparison needs.
#[derive(Debug, Clone, PartialEq)]
pub enum ConditionPlan {
    /// The condition needs no written value.
    Fixed(ConditionOutline),
    /// `If` the bool parameter when the written value, read as a bool, is `set_when`, and `IfNot`
    /// otherwise.
    Flag { parameter: ParameterRef, set_when: bool },
    /// `Equals` the written value read as an int, or `NotEqual` it.
    Count { parameter: ParameterRef, equal: bool },
    /// `Greater` than the written value read as a float, or `Less` than it.
    Threshold { parameter: ParameterRef, greater: bool },
}

/// The error for a value of type `found` written where a `expected` one is needed.
pub open spec fn cast_error(expected: AnimatedValueType, found: AnimatedValueType, at: Option<SourceLocation>) -> TransformError {
    TransformError { at, kind: TransformErrorKind::ValueTypeMismatch { expected, found } }
}

/// `plan`, when a value of type `found` can be read as `needed`.
pub open spec fn when_castable(
    plan: ConditionPlan,
    needed: AnimatedValueType,
    found: AnimatedValueType,
    at: Option<SourceLocation>,
) -> Result<ConditionPlan, TransformError> {
    if found.spec_casts_to(needed) {
        Ok(plan)
    } else {
        Err(cast_error(needed, found, at))
    }
}

/// What a written condition becomes once its parameter is resolved: the comparison the animator
/// supports for the parameter's type, or why there is none.
pub open spec fn condition_plan(entries: Seq<crate::parameters::ParameterEntry>, condition: WrittenCondition) -> Result<
    ConditionPlan,
    TransformError,
> {
    let reference = condition.spec_parameter();
    match resolution(entries, reference) {
        Err(error) => Err(error),
        Ok(parameter) => {
            let at = reference.at;
            let unsupported = TransformError {
                at,
                kind: TransformErrorKind::UnsupportedCondition {
                    condition: condition_word(condition),
                    parameter: parameter.value,
                    value_type: parameter.context,
                },
            };
            match (condition, parameter.context) {
                (WrittenCondition::Zero(_), AnimatedValueType::Bool) => Ok(
                    ConditionPlan::Fixed(ConditionOutline::IfNot(parameter)),
                ),
                (WrittenCondition::Zero(_), AnimatedValueType::Int) => Ok(
                    ConditionPlan::Fixed(ConditionOutline::Equals(parameter, 0)),
                ),
                (WrittenCondition::NonZero(_), AnimatedValueType::Bool) => Ok(
                    ConditionPlan::Fixed(ConditionOutline::If(parameter)),
                ),
                (WrittenCondition::NonZero(_), AnimatedValueType::Int) => Ok(
                    ConditionPlan::Fixed(ConditionOutline::NotEqual(parameter, 0)),
                ),
                (WrittenCondition::Eq(_, found), AnimatedValueType::Bool) => when_castable(
                    ConditionPlan::Flag { parameter, set_when: true },
                    AnimatedValueType::Bool,
                    found,
                    at,
                ),
                (WrittenCondition::Ne(_, found), AnimatedValueType::Bool) => when_castable(
                    ConditionPlan::Flag { parameter, set_when: false },
                    AnimatedValueType::Bool,
                    found,
                    at,
                ),
                (WrittenCondition::Eq(_, found), AnimatedValueType::Int) => when_castable(
                    ConditionPlan::Count { parameter, equal: true },
                    AnimatedValueType::Int,
                    found,
                    at,
                ),
                (WrittenCondition::Ne(_, found), AnimatedValueType::Int) => when_castable(
                    ConditionPlan::Count { parameter, equal: false },
                    AnimatedValueType::Int,
                    found,
                    at,
                ),
                (WrittenCondition::Gt(_, found), AnimatedValueType::Int) => when_castable(
                    ConditionPlan::Threshold { parameter, greater: true },
                    AnimatedValueType::Float,
                    found,
                    at,
                ),
                (WrittenCondition::Gt(_, found), AnimatedValueType::Float) => when_castable(
                    ConditionPlan::Threshold { parameter, greater: true },
                    AnimatedValueType::Float,
                    found,
                    at,
                ),
                (WrittenCondition::Lt(_, found), AnimatedValueType::Int) => when_castable(
                    ConditionPlan::Threshold { parameter, greater: false },
                    AnimatedValueType::Float,
                    found,
                    at,
                ),
                (WrittenCondition::Lt(_, found), AnimatedValueType::Float) => when_castable(
                    ConditionPlan::Threshold { parameter, greater: false },
                    AnimatedValueType::Float,
                    found,
                    at,
                ),
                _ => Err(unsupported),
            }
        },
    }
}

fn checked_cast(plan: ConditionPlan, needed: AnimatedValueType, found: AnimatedValueType, at: &Option<SourceLocation>) -> (result:
    Result<ConditionPlan, TransformError>)
    ensures
        result == when_castable(plan, needed, found, *at),
{
    if found.casts_to(needed) {
        Ok(plan)
    } else {
        Err(TransformErrorKind::ValueTypeMismatch { expected: needed, found }.at(duplicate_location(at)))
    }
}

/// Resolves the parameter of a written condition and picks the comparison for its type.
pub fn plan_condition(parameters: &ParameterTable, condition: &WrittenCondition) -> (result: Result<
    ConditionPlan,
    TransformError,
>)
    requires
        parameters.wf(),
    ensures
        result == condition_plan(parameters.entries(), *condition),
{
    let reference = condition.parameter();
    let parameter = match parameters.resolve(reference) {
        Ok(parameter) => parameter,
        Err(error) => return Err(error),
    };
    let at = &reference.at;
    match (condition, parameter.context) {
        (WrittenCondition::Zero(_), AnimatedValueType::Bool) => Ok(ConditionPlan::Fixed(ConditionOutline::IfNot(parameter))),
        (WrittenCondition::Zero(_), AnimatedValueType::Int) => Ok(ConditionPlan::Fixed(ConditionOutline::Equals(parameter, 0))),
        (WrittenCondition::NonZero(_), AnimatedValueType::Bool) => Ok(ConditionPlan::Fixed(ConditionOutline::If(parameter))),
        (WrittenCondition::NonZero(_), AnimatedValueType::Int) => Ok(
            ConditionPlan::Fixed(ConditionOutline::NotEqual(parameter, 0)),
        ),
        (WrittenCondition::Eq(_, found), AnimatedValueType::Bool) => checked_cast(
            ConditionPlan::Flag { parameter, set_when: true },
            AnimatedValueType::Bool,
            *found,
            at,
        ),
        (WrittenCondition::Ne(_, found), AnimatedValueType::Bool) => checked_cast(
            ConditionPlan::Flag { parameter, set_when: false },
            AnimatedValueType::Bool,
            *found,
            at,
        ),
        (WrittenCondition::Eq(_, found), AnimatedValueType::Int) => checked_cast(
            ConditionPlan::Count { parameter, equal: true },
            AnimatedValueType::Int,
            *found,
            at,
        ),
        (WrittenCondition::Ne(_, found), AnimatedValueType::Int) => checked_cast(
            ConditionPlan::Count { parameter, equal: false },
            AnimatedValueType::Int,
            *found,
            at,
        ),
        (WrittenCondition::Gt(_, found), AnimatedValueType::Int | AnimatedValueType::Float) => checked_cast(
            ConditionPlan::Threshold { parameter, greater: true },
            AnimatedValueType::Float,
            *found,
            at,
        ),
        (WrittenCondition::Lt(_, found), AnimatedValueType::Int | AnimatedValueType::Float) => checked_cast(
            ConditionPlan::Threshold { parameter, greater: false },
            AnimatedValueType::Float,
            *found,
            at,
        ),
        _ => {
            let word = match condition {
                WrittenCondition::Zero(_) => "zero",
                WrittenCondition::NonZero(_) => "nonzero",
                WrittenCondition::Eq(..) => "eq",
                WrittenCondition::Ne(..) => "ne",
                WrittenCondition::Gt(..) => "gt",
                WrittenCondition::Lt(..) => "lt",
            };
            let value_type = parameter.context;
            Err(
                TransformErrorKind::UnsupportedCondition { condition: word, parameter: parameter.value, value_type }.at(
                    duplicate_location(at),
                ),
            )
        },
    }
}

/// A written value read as a bool: a bool as itself, an int as whether it is nonzero; no other
/// value reads as a bool.
pub fn read_flag(value: &WireValue<()>) -> (flag: Option<bool>)
    ensures
        flag == match *value {
            WireValue::Bool(b) => Some(b),
            WireValue::Int(n) => Some(n != 0),
            _ => None::<bool>,
        },
{
    match value {
        WireValue::Bool(b) => Some(*b),
        WireValue::Int(n) => Some(*n != 0),
        _ => None,
    }
}

/// A written value read as an int: an int as itself, a bool as `1` or `0`; no other value reads
/// as an int.
pub fn read_count(value: &WireValue<()>) -> (count: Option<i64>)
    ensures
        count == match *value {
            WireValue::Int(n) => Some(n),
            WireValue::Bool(b) => Some(if b { 1i64 } else { 0i64 }),
            _ => None::<i64>,
        },
{
    match value {
        WireValue::Int(n) => Some(*n),
        WireValue::Bool(b) => Some(if *b { 1 } else { 0 }),
        _ => None,
    }
}

/// A flag condition, finished with the written value read as a bool.
pub fn flag_condition(parameter: ParameterRef, set_when: bool, value: bool) -> (condition: ConditionOutline)
    ensures
        condition == if value == set_when {
            ConditionOutline::If(parameter)
        } else {
            ConditionOutline::IfNot(parameter)
        },
{
    if value == set_when {
        ConditionOutline::If(parameter)
    } else {
        ConditionOutline::IfNot(parameter)
    }
}

/// A count condition, finished with the written value read as an int.
pub fn count_condition(parameter: ParameterRef, equal: bool, value: i64) -> (condition: ConditionOutline)
    ensures
        condition == if equal {
            ConditionOutline::Equals(parameter, value)
        } else {
            ConditionOutline::NotEqual(parameter, value)
        },
{
    if equal {
        ConditionOutline::Equals(parameter, value)
    } else {
        ConditionOutline::NotEqual(parameter, value)
    }
}

/// The conditions in order, planned; the first condition that cannot be planned is the error.
pub open spec fn conditions_plan(
    entries: Seq<crate::parameters::ParameterEntry>,
    conditions: Seq<WrittenCondition>,
) -> Result<Seq<ConditionPlan>, TransformError>
    decreases conditions.len(),
{
    if conditions.len() == 0 {
        Ok(seq![])
    } else {
        match conditions_plan(entries, conditions.drop_last()) {
            Err(error) => Err(error),
            Ok(front) => match condition_plan(entries, conditions.last()) {
                Err(error) => Err(error),
                Ok(plan) => Ok(front.push(plan)),
            },
        }
    }
}

/// Resolves and plans each condition of a transition, in order.
pub fn plan_conditions(parameters: &ParameterTable, conditions: &Vec<WrittenCondition>) -> (result: Result<
    Vec<ConditionPlan>,
    TransformError,
>)
    requires
        parameters.wf(),
    ensures
        match conditions_plan(parameters.entries(), conditions@) {
            Ok(plans) => result matches Ok(planned) && planned@ == plans,
            Err(error) => result == Err::<Vec<ConditionPlan>, TransformError>(error),
        },
{
    let ghost all = conditions@;
    let mut planned: Vec<ConditionPlan> = Vec::new();
    let mut i: usize = 0;
    assert(all.take(0) =~= Seq::<WrittenCondition>::empty());
    while i < conditions.len()
        invariant
            i <= all.len(),
            all == conditions@,
            parameters.wf(),
            conditions_plan(parameters.entries(), all.take(i as int)) == Ok::<Seq<ConditionPlan>, TransformError>(
                planned@,
            ),
        decreases all.len() - i,
    {
        assert(all.take(i + 1).drop_last() =~= all.take(i as int));
        assert(all.take(i + 1).last() == conditions@[i as int]);
        match plan_condition(parameters, &conditions[i]) {
            Ok(plan) => planned.push(plan),
            Err(error) => {
                proof {
                    lemma_conditions_error_persists(parameters.entries(), all, i + 1);
                }
                return Err(error);
            },
        }
        i = i + 1;
    }
    assert(all.take(i as int) =~= all);
    Ok(planned)
}

proof fn lemma_conditions_error_persists(
    entries: Seq<crate::parameters::ParameterEntry>,
    conditions: Seq<WrittenCondition>,
    k: int,
)
    requires
        0 <= k <= conditions.len(),
        conditions_plan(entries, conditions.take(k)) is Err,
    ensures
        conditions_plan(entries, conditions) == conditions_plan(entries, conditions.take(k)),
    decreases conditions.len(),
{
    if k == conditions.len() {
        assert(conditions.take(k) =~= conditions);
    } else {
        let front = conditions.drop_last();
        assert(front.take(k) =~= conditions.take(k));
        lemma_conditions_error_persists(entries, front, k);
    }
}

/// A transition as written in a raw layer: the states it joins, by name, and its conditions.
#[derive(Debug, Clone, PartialEq)]
pub struct WrittenTransition {
    pub from: Unresolved<String>,
    pub to: Unresolved<String>,
    pub conditions: Vec<WrittenCondition>,
}

/// A transition of a raw layer with its states found and its conditions planned.
#[derive(Debug, Clone, PartialEq)]
pub struct PlannedTransition {
    pub from: usize,
    pub to: usize,
    pub conditions: Vec<ConditionPlan>,
}

impl View for PlannedTransition {
    type V = (usize, usize, Seq<ConditionPlan>);

    open spec fn view(&self) -> (usize, usize, Seq<ConditionPlan>) {
        (self.from, self.to, self.conditions@)
    }
}

/// The error for a reference to a state that the raw layer `layer` does not have.
pub open spec fn unknown_state(layer: String, reference: Unresolved<String>) -> TransformError {
    TransformError { at: reference.at, kind: TransformErrorKind::UnknownState { layer, state: reference.value } }
}

/// One written transition of the raw layer `layer`: its source state is found first, then its
/// target, then its conditions are planned.
pub open spec fn transition_plan(
    names: Seq<Seq<char>>,
    entries: Seq<crate::parameters::ParameterEntry>,
    layer: String,
    transition: WrittenTransition,
) -> Result<(usize, usize, Seq<ConditionPlan>), TransformError> {
    match state_position(names, transition.from.value@) {
        None => Err(unknown_state(layer, transition.from)),
        Some(from) => match state_position(names, transition.to.value@) {
            None => Err(unknown_state(layer, transition.to)),
            Some(to) => match conditions_plan(entries, transition.conditions@) {
                Err(error) => Err(error),
                Ok(plans) => Ok((from as usize, to as usize, plans)),
            },
        },
    }
}

/// The written transitions in order, each found and planned; the first that fails is the error.
pub open spec fn transitions_plan(
    names: Seq<Seq<char>>,
    entries: Seq<crate::parameters::ParameterEntry>,
    layer: String,
    written: Seq<WrittenTransition>,
) -> Result<Seq<(usize, usize, Seq<ConditionPlan>)>, TransformError>
    decreases written.len(),
{
    if written.len() == 0 {
        Ok(seq![])
    } else {
        match transitions_plan(names, entries, layer, written.drop_last()) {
            Err(error) => Err(error),
            Ok(front) => match transition_plan(names, entries, layer, written.last()) {
                Err(error) => Err(error),
                Ok(planned) => Ok(front.push(planned)),
            },
        }
    }
}

proof fn lemma_transitions_error_persists(
    names: Seq<Seq<char>>,
    entries: Seq<crate::parameters::ParameterEntry>,
    layer: String,
    written: Seq<WrittenTransition>,
    k: int,
)
    requires
        0 <= k <= written.len(),
        transitions_plan(names, entries, layer, written.take(k)) is Err,
    ensures
        transitions_plan(names, entries, layer, written) == transitions_plan(names, entries, layer, written.take(k)),
    decreases written.len(),
{
    if k == written.len() {
        assert(written.take(k) =~= written);
    } else {
        let front = written.drop_last();
        assert(front.take(k) =~= written.take(k));
        lemma_transitions_error_persists(names, entries, layer, front, k);
    }
}

impl StateIndex {
    /// Finds the states of each written transition of the raw layer `layer` and plans its
    /// conditions, transition by transition.
    pub fn plan_transitions(&self, parameters: &ParameterTable, layer: &String, written: &[WrittenTransition]) -> (result:
        Result<Vec<PlannedTransition>, TransformError>)
        requires
            self.wf(),
            parameters.wf(),
        ensures
            match transitions_plan(self.names(), parameters.entries(), *layer, written@) {
                Ok(plans) => result matches Ok(planned) && planned@.map_values(|t: PlannedTransition| t@) == plans,
                Err(error) => result == Err::<Vec<PlannedTransition>, TransformError>(error),
            },
    {
        let ghost all = written@;
        let ghost names = self.names();
        let ghost entries = parameters.entries();
        let mut planned: Vec<PlannedTransition> = Vec::new();
        let mut i: usize = 0;
        assert(all.take(0) =~= Seq::<WrittenTransition>::empty());
        assert(planned@.map_values(|t: PlannedTransition| t@) =~= Seq::<(usize, usize, Seq<ConditionPlan>)>::empty());
        while i < written.len()
            invariant
                i <= all.len(),
                all == written@,
                self.wf(),
                parameters.wf(),
                names == self.names(),
                entries == parameters.entries(),
                transitions_plan(names, entries, *layer, all.take(i as int)) == Ok::<
                    Seq<(usize, usize, Seq<ConditionPlan>)>,
                    TransformError,
                >(planned@.map_values(|t: PlannedTransition| t@)),
            decreases all.len() - i,
        {
            let transition = &written[i];
            assert(all.take(i + 1).drop_last() =~= all.take(i as int));
            assert(all.take(i + 1).last() == *transition);
            let outcome: Result<PlannedTransition, TransformError> = match self.lookup(layer, &transition.from) {
                Err(error) => Err(error),
                Ok(from) => match self.lookup(layer, &transition.to) {
                    Err(error) => Err(error),
                    Ok(to) => match plan_conditions(parameters, &transition.conditions) {
                        Err(error) => Err(error),
                        Ok(conditions) => Ok(PlannedTransition { from, to, conditions }),
                    },
                },
            };
            match outcome {
                Ok(step) => {
                    assert(transition_plan(names, entries, *layer, *transition) == Ok::<
                        (usize, usize, Seq<ConditionPlan>),
                        TransformError,
                    >(step@));
                    let ghost before = planned@;
                    planned.push(step);
                    assert(planned@.map_values(|t: PlannedTransition| t@) =~= before.map_values(
                        |t: PlannedTransition| t@,
                    ).push(step@));
                },
                Err(error) => {
                    assert(transition_plan(names, entries, *layer, *transition) == Err::<
                        (usize, usize, Seq<ConditionPlan>),
                        TransformError,
                    >(error));
                    proof {
                        lemma_transitions_error_persists(names, entries, *layer, all, i + 1);
                    }
                    return Err(error);
                },
            }
            i = i + 1;
        }
        assert(all.take(i as int) =~= all);
        Ok(planned)
    }
}

/// The playback options written on a clip: its speed, as the bits of a float, and the float
/// parameters that drive its speed and its time.
#[derive(Debug, Clone, PartialEq)]
pub struct ClipOptionsOutline {
    pub speed: Option<u64>,
    pub speed_by: Option<Unresolved<String>>,
    pub time_by: Option<Unresolved<String>>,
}

/// How a state plays its motion: a speed (the bits of a float, `1.0` unless written) and the
/// parameters, resolved, that drive its speed and its time.
#[derive(Debug, Clone, PartialEq)]
pub struct PlaybackPlan {
    pub speed: u64,
    pub speed_by: Option<ParameterRef>,
    pub time_by: Option<ParameterRef>,
}

/// A float parameter an option names, resolved, if the option is written.
pub open spec fn optional_float(
    parameters: Seq<ParameterEntry>,
    reference: Option<Unresolved<String>>,
) -> Result<Option<ParameterRef>, TransformError> {
    match reference {
        None => Ok(None),
        Some(reference) => match typed_resolution(parameters, reference, AnimatedValueType::Float) {
            Ok(parameter) => Ok(Some(parameter)),
            Err(error) => Err(error),
        },
    }
}

fn resolve_optional_float(parameters: &ParameterTable, reference: &Option<Unresolved<String>>) -> (result: Result<
    Option<ParameterRef>,
    TransformError,
>)
    requires
        parameters.wf(),
    ensures
        result == optional_float(parameters.entries(), *reference),
{
    match reference {
        None => Ok(None),
        Some(reference) => match parameters.resolve_typed(reference, AnimatedValueType::Float) {
            Ok(parameter) => Ok(Some(parameter)),
            Err(error) => Err(error),
        },
    }
}

/// How the motion of a state plays, from the options written on its clip, or why it cannot:
/// `speed_by` is resolved before `time_by`, each as a float parameter.
pub open spec fn playback_of(parameters: Seq<ParameterEntry>, options: ClipOptionsOutline) -> Result<
    PlaybackPlan,
    TransformError,
> {
    match optional_float(parameters, options.speed_by) {
        Err(error) => Err(error),
        Ok(speed_by) => match optional_float(parameters, options.time_by) {
            Err(error) => Err(error),
            Ok(time_by) => Ok(PlaybackPlan { speed: options.speed.unwrap_or(ONE_BITS), speed_by, time_by }),
        },
    }
}

/// How the motion of a state plays, from the options written on its clip.
pub fn playback(parameters: &ParameterTable, options: &ClipOptionsOutline) -> (result: Result<PlaybackPlan, TransformError>)
    requires
        parameters.wf(),
    ensures
        result == playback_of(parameters.entries(), *options),
{
    let speed_by = match resolve_optional_float(parameters, &options.speed_by) {
        Ok(found) => found,
        Err(error) => return Err(error),
    };
    let time_by = match resolve_optional_float(parameters, &options.time_by) {
        Ok(found) => found,
        Err(error) => return Err(error),
    };
    let speed = match options.speed {
        Some(speed) => speed,
        None => ONE_BITS,
    };
    Ok(PlaybackPlan { speed, speed_by, time_by })
}

/// The speed of a clip inside a blend tree, which can scale its speed but cannot follow a
/// parameter: `speed_by` and then `time_by` are refused where they were written.
pub open spec fn nested_speed_of(options: ClipOptionsOutline) -> Result<u64, TransformError> {
    match options.speed_by {
        Some(parameter) => Err(
            TransformError { at: parameter.at, kind: TransformErrorKind::NestedPlayback { option: "speed_by" } },
        ),
        None => match options.time_by {
            Some(parameter) => Err(
                TransformError { at: parameter.at, kind: TransformErrorKind::NestedPlayback { option: "time_by" } },
            ),
            None => Ok(options.speed.unwrap_or(ONE_BITS)),
        },
    }
}

/// The speed of a clip inside a blend tree, or why its options cannot stand there.
pub fn nested_speed(options: &ClipOptionsOutline) -> (result: Result<u64, TransformError>)
    ensures
        result == nested_speed_of(*options),
{
    if let Some(parameter) = &options.speed_by {
        return Err(TransformErrorKind::NestedPlayback { option: "speed_by" }.at(duplicate_location(&parameter.at)));
    }
    if let Some(parameter) = &options.time_by {
        return Err(TransformErrorKind::NestedPlayback { option: "time_by" }.at(duplicate_location(&parameter.at)));
    }
    match options.speed {
        Some(speed) => Ok(speed),
        None => Ok(ONE_BITS),
    }
}

/// The axes of a parametric blend tree: `x` and then `y`, if written, each a float parameter.
pub open spec fn blend_axes_of(
    parameters: Seq<ParameterEntry>,
    x: Unresolved<String>,
    y: Option<Unresolved<String>>,
) -> Result<(ParameterRef, Option<ParameterRef>), TransformError> {
    match typed_resolution(parameters, x, AnimatedValueType::Float) {
        Err(error) => Err(error),
        Ok(x) => match optional_float(parameters, y) {
            Err(error) => Err(error),
            Ok(y) => Ok((x, y)),
        },
    }
}

/// Resolves the axes of a parametric blend tree.
pub fn blend_axes(parameters: &ParameterTable, x: &Unresolved<String>, y: &Option<Unresolved<String>>) -> (result:
    Result<(ParameterRef, Option<ParameterRef>), TransformError>)
    requires
        parameters.wf(),
    ensures
        result == blend_axes_of(parameters.entries(), *x, *y),
{
    let x = match parameters.resolve_typed(x, AnimatedValueType::Float) {
        Ok(x) => x,
        Err(error) => return Err(error),
    };
    match resolve_optional_float(parameters, y) {
        Ok(y) => Ok((x, y)),
        Err(error) => Err(error),
    }
}

/// A state plays at the speed its clip writes, and at `1.0` only where none is written; it follows
/// a speed or time parameter exactly where one is written, that parameter by its name, as a
/// float. Reading fails only where such a parameter is written.
pub proof fn law_playback_keeps_what_is_written(parameters: Seq<ParameterEntry>, options: ClipOptionsOutline)
    ensures
        match playback_of(parameters, options) {
            Ok(plan) => {
                &&& (options.speed matches Some(written) ==> plan.speed == written)
                &&& (options.speed is None ==> plan.speed == ONE_BITS)
                &&& (plan.speed_by is Some <==> options.speed_by is Some)
                &&& (plan.time_by is Some <==> options.time_by is Some)
                &&& (plan.speed_by matches Some(p) ==> p.value@ == options.speed_by->0.value@ && p.context
                    == AnimatedValueType::Float)
                &&& (plan.time_by matches Some(p) ==> p.value@ == options.time_by->0.value@ && p.context
                    == AnimatedValueType::Float)
            },
            Err(_) => options.speed_by is Some || options.time_by is Some,
        },
{
    if let Some(reference) = options.speed_by {
        if let Some(i) = crate::parameters::find(parameters, reference.value@) {
            assert(parameters[i].name@ == reference.value@);
        }
    }
    if let Some(reference) = options.time_by {
        if let Some(i) = crate::parameters::find(parameters, reference.value@) {
            assert(parameters[i].name@ == reference.value@);
        }
    }
}

/// A clip inside a blend tree keeps the speed it writes, and `1.0` where none is written; it is
/// refused exactly when it writes a speed or time parameter, naming the first of the two, at the
/// place it was written.
pub proof fn law_nested_speed_keeps_what_is_written(options: ClipOptionsOutline)
    ensures
        match nested_speed_of(options) {
            Ok(speed) => {
                &&& options.speed_by is None && options.time_by is None
                &&& (options.speed matches Some(written) ==> speed == written)
                &&& (options.speed is None ==> speed == ONE_BITS)
            },
            Err(error) => {
                &&& options.speed_by is Some || options.time_by is Some
                &&& (options.speed_by matches Some(p) ==> error.at == p.at && error.kind
                    == TransformErrorKind::NestedPlayback { option: "speed_by" })
                &&& (options.speed_by is None ==> error.at == options.time_by->0.at && error.kind
                    == TransformErrorKind::NestedPlayback { option: "time_by" })
            },
        },
{
}

/// The axes of a parametric blend tree are the parameters written for them, by name, as floats,
/// with a second axis exactly where one is written; reading fails only on a written axis.
pub proof fn law_blend_axes_keep_what_is_written(
    parameters: Seq<ParameterEntry>,
    x: Unresolved<String>,
    y: Option<Unresolved<String>>,
)
    ensures
        match blend_axes_of(parameters, x, y) {
            Ok((first, second)) => {
                &&& first.value@ == x.value@ && first.context == AnimatedValueType::Float
                &&& (second is Some <==> y is Some)
                &&& (second matches Some(p) ==> p.value@ == y->0.value@ && p.context == AnimatedValueType::Float)
            },
            Err(_) => true,
        },
{
    if let Some(i) = crate::parameters::find(parameters, x.value@) {
        assert(parameters[i].name@ == x.value@);
    }
    if let Some(reference) = y {
        if let Some(i) = crate::parameters::find(parameters, reference.value@) {
            assert(parameters[i].name@ == reference.value@);
        }
    }
}

} // verus!
