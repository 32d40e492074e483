//! Checks a decoder applies to references inside a payload: discriminators, state indices and the
//! parameter names in scope with their types.
use vstd::prelude::*;

use crate::raw_pass::{first_repeat, lemma_first_repeat_of_prefix, lemma_no_repeat_distinct};
use crate::value::{AnimatedValueType, AnimatorParameterType};
use crate::wire::DecodeError;

verus! {

/// The error for a byte that names no variant of `of_type`.
pub fn unknown(of_type: &'static str, value: u8) -> (error: DecodeError)
    ensures
        error == (DecodeError::InvalidDiscriminator { of_type, value }),
{
    DecodeError::InvalidDiscriminator { of_type, value }
}

/// A state index read from a payload, accepted only when it points into a layer of `len` states.
pub fn check_state_index(index: u32, len: usize) -> (result: Result<usize, DecodeError>)
    ensures
        result == if (index as int) < len {
            Ok::<usize, DecodeError>(index as usize)
        } else {
            Err(DecodeError::StateOutOfRange { index, len })
        },
{
    if (index as usize) < len {
        Ok(index as usize)
    } else {
        Err(DecodeError::StateOutOfRange { index, len })
    }
}

/// The parameters in scope while decoding, each name with the value type it was declared with.
#[derive(Debug, Clone, Default)]
pub struct ParameterTypes {
    entries: Vec<(String, AnimatedValueType)>,
}

impl ParameterTypes {
    /// No name is declared twice.
    pub closed spec fn wf(&self) -> bool {
        forall|i: int, j: int|
            0 <= i < j < self.entries@.len() ==> #[trigger] self.entries@[i].0@ != #[trigger] self.entries@[j].0@
    }

    /// Each name in scope with its type.
    pub closed spec fn types(&self) -> Map<Seq<char>, AnimatedValueType> {
        Map::new(
            |name: Seq<char>| exists|i: int| 0 <= i < self.entries@.len() && self.entries@[i].0@ == name,
            |name: Seq<char>|
                self.entries@[choose|i: int| 0 <= i < self.entries@.len() && self.entries@[i].0@ == name].1,
        )
    }

    pub fn new() -> (scope: ParameterTypes)
        ensures
            scope.wf(),
            scope.types() == Map::<Seq<char>, AnimatedValueType>::empty(),
    {
        let scope = ParameterTypes { entries: Vec::new() };
        assert(scope.types() =~= Map::<Seq<char>, AnimatedValueType>::empty());
        scope
    }

    /// The type `name` was declared with, if it is in scope.
    pub fn get(&self, name: &str) -> (found: Option<AnimatedValueType>)
        requires
            self.wf(),
        ensures
            found == if self.types().dom().contains(name@) {
                Some(self.types()[name@])
            } else {
                None
            },
    {
        let wanted = name.to_owned();
        let mut i: usize = 0;
        while i < self.entries.len()
            invariant
                i <= self.entries@.len(),
                self.wf(),
                wanted@ == name@,
                forall|k: int| 0 <= k < i ==> self.entries@[k].0@ != name@,
            decreases self.entries@.len() - i,
        {
            if self.entries[i].0 == wanted {
                proof {
                    let chosen = choose|k: int| 0 <= k < self.entries@.len() && self.entries@[k].0@ == name@;
                    assert(self.entries@[chosen].0@ == name@);
                    assert(chosen == i) by {
                        if chosen < i {
                        } else if chosen > i {
                            assert(self.entries@[i as int].0@ != self.entries@[chosen].0@);
                        }
                    }
                }
                return Some(self.entries[i].1);
            }
            i = i + 1;
        }
        None
    }

    fn insert_new(&mut self, name: &str, value_type: AnimatedValueType)
        requires
            old(self).wf(),
            !old(self).types().dom().contains(name@),
        ensures
            final(self).wf(),
            final(self).types() == old(self).types().insert(name@, value_type),
    {
        let ghost before = self.entries@;
        self.entries.push((name.to_owned(), value_type));
        proof {
            let last = before.len() as int;
            assert forall|n: Seq<char>| #[trigger] self.types().dom().contains(n) == old(self).types().insert(
                name@,
                value_type,
            ).dom().contains(n) by {
                if n == name@ {
                    assert(self.entries@[last].0@ == n);
                } else if old(self).types().dom().contains(n) {
                    let k = choose|k: int| 0 <= k < before.len() && before[k].0@ == n;
                    assert(self.entries@[k] == before[k]);
                }
            }
            assert forall|n: Seq<char>| #[trigger] self.types().dom().contains(n) implies self.types()[n]
                == old(self).types().insert(name@, value_type)[n] by {
                let chosen = choose|k: int| 0 <= k < self.entries@.len() && self.entries@[k].0@ == n;
                if n == name@ {
                    assert(chosen == last);
                } else {
                    assert(chosen < last);
                    assert(self.entries@[chosen] == before[chosen]);
                    let k = choose|k: int| 0 <= k < before.len() && before[k].0@ == n;
                    assert(k == chosen) by {
                        if k != chosen {
                            if k < chosen {
                                assert(before[k].0@ != before[chosen].0@);
                            } else {
                                assert(before[chosen].0@ != before[k].0@);
                            }
                        }
                    }
                }
            }
            assert(self.types() =~= old(self).types().insert(name@, value_type));
        }
    }
}

/// Declares `name` with `value_type` in `scope`. Declaring a name again with the same type is
/// accepted and changes nothing; declaring it with another type is an error.
pub fn add_parameter(scope: &mut ParameterTypes, name: &str, value_type: AnimatedValueType) -> (result: Result<
    (),
    DecodeError,
>)
    requires
        old(scope).wf(),
    ensures
        final(scope).wf(),
        match old(scope).types().get(name@) {
            Some(first) => if first == value_type {
                result is Ok && final(scope).types() == old(scope).types()
            } else {
                result matches Err(DecodeError::ConflictingParameter { name: reported, first: f, second: s })
                    && reported@ == name@ && f == first && s == value_type && final(scope).types()
                    == old(scope).types()
            },
            None => result is Ok && final(scope).types() == old(scope).types().insert(name@, value_type),
        },
{
    match scope.get(name) {
        Some(first) => {
            if first != value_type {
                Err(DecodeError::ConflictingParameter { name: name.to_owned(), first, second: value_type })
            } else {
                Ok(())
            }
        },
        None => {
            scope.insert_new(name, value_type);
            Ok(())
        },
    }
}

/// The names of the parameters, in order.
pub open spec fn parameter_names(parameters: Seq<(String, AnimatorParameterType)>) -> Seq<Seq<char>> {
    parameters.map_values(|parameter: (String, AnimatorParameterType)| parameter.0@)
}

/// The parameters of one controller as a scope: each name with the value type of its parameter.
pub open spec fn scope_of(parameters: Seq<(String, AnimatorParameterType)>) -> Map<Seq<char>, AnimatedValueType> {
    Map::new(
        |name: Seq<char>| parameter_names(parameters).contains(name),
        |name: Seq<char>|
            parameters[choose|i: int| 0 <= i < parameters.len() && parameters[i].0@ == name].1.spec_animated_value_type(),
    )
}

/// The parameters of one controller, in scope while its layers are read. A name declared twice
/// is refused at its second declaration.
pub fn controller_scope(parameters: &[(String, AnimatorParameterType)]) -> (result: Result<ParameterTypes, DecodeError>)
    ensures
        match first_repeat(parameter_names(parameters@)) {
            Some(j) => result matches Err(DecodeError::Duplicate { what, key }) && what == "animator parameter"
                && key@ == "`"@ + parameters@[j].0@ + "`"@,
            None => result matches Ok(scope) && scope.wf() && scope.types() == scope_of(parameters@),
        },
{
    let ghost names = parameter_names(parameters@);
    let mut scope = ParameterTypes::new();
    let mut i: usize = 0;
    assert(names.take(0) =~= Seq::<Seq<char>>::empty());
    assert(scope.types() =~= scope_of(parameters@.take(0)));
    while i < parameters.len()
        invariant
            i <= parameters@.len(),
            names == parameter_names(parameters@),
            scope.wf(),
            scope.types() == scope_of(parameters@.take(i as int)),
            first_repeat(names.take(i as int)) is None,
            parameter_names(parameters@.take(i as int)) == names.take(i as int),
        decreases parameters@.len() - i,
    {
        let (name, parameter_type) = &parameters[i];
        let ghost before = names.take(i as int);
        assert(names.take(i + 1).drop_last() =~= before);
        assert(names.take(i + 1).last() == name@);
        match scope.get(name.as_str()) {
            Some(_) => {
                proof {
                    assert(scope.types().dom().contains(name@));
                    let k = choose|k: int| 0 <= k < before.len() && parameter_names(parameters@.take(i as int))[k] == name@;
                    assert(before.contains(name@));
                    assert(first_repeat(names.take(i + 1)) == Some(i as int));
                    lemma_first_repeat_of_prefix(names, i + 1);
                }
                let mut key = String::from_str("`");
                key.append(name.as_str());
                key.append("`");
                return Err(DecodeError::Duplicate { what: "animator parameter", key });
            },
            None => {
                let value_type = parameter_type.animated_value_type();
                let ghost old_types = scope.types();
                scope.insert_new(name.as_str(), value_type);
                proof {
                    let prefix = parameters@.take(i + 1);
                    assert(prefix.drop_last() =~= parameters@.take(i as int));
                    assert(parameter_names(prefix) =~= names.take(i + 1));
                    assert forall|n: Seq<char>| #[trigger] scope.types().dom().contains(n) == scope_of(prefix).dom().contains(n) by {
                        if n == name@ {
                            assert(parameter_names(prefix)[i as int] == n);
                        } else if parameter_names(prefix).contains(n) {
                            let k = choose|k: int| 0 <= k < prefix.len() && parameter_names(prefix)[k] == n;
                            assert(k < i);
                            assert(parameter_names(parameters@.take(i as int))[k] == n);
                        }
                    }
                    assert forall|n: Seq<char>| #[trigger] scope.types().dom().contains(n) implies scope.types()[n]
                        == scope_of(prefix)[n] by {
                        let chosen = choose|k: int| 0 <= k < prefix.len() && prefix[k].0@ == n;
                        assert(parameter_names(prefix)[chosen] == n);
                        if n == name@ {
                            assert(chosen == i) by {
                                if chosen < i {
                                    assert(parameter_names(parameters@.take(i as int))[chosen] == n);
                                    assert(before.contains(n));
                                }
                            }
                        } else {
                            assert(chosen < i);
                            let earlier = parameters@.take(i as int);
                            assert(parameter_names(earlier)[chosen] == n);
                            let first = choose|k: int| 0 <= k < earlier.len() && earlier[k].0@ == n;
                            assert(first == chosen) by {
                                if first != chosen {
                                    assert(parameter_names(earlier)[first] == n);
                                    lemma_no_repeat_distinct(names.take(i as int), first, chosen);
                                }
                            }
                        }
                    }
                    assert(scope.types() =~= scope_of(prefix));
                }
            },
        }
        i = i + 1;
    }
    assert(parameters@.take(i as int) =~= parameters@);
    assert(names.take(i as int) =~= names);
    Ok(scope)
}


/// The scope after declaring each of `declared` in turn, starting from `types`, or the first
/// name declared with two types, with both.
pub open spec fn scope_after(
    types: Map<Seq<char>, AnimatedValueType>,
    declared: Seq<(Seq<char>, AnimatedValueType)>,
) -> Result<Map<Seq<char>, AnimatedValueType>, (Seq<char>, AnimatedValueType, AnimatedValueType)>
    decreases declared.len(),
{
    if declared.len() == 0 {
        Ok(types)
    } else {
        match scope_after(types, declared.drop_last()) {
            Err(conflict) => Err(conflict),
            Ok(scope) => {
                let (name, value_type) = declared.last();
                if scope.contains_key(name) {
                    if scope[name] == value_type {
                        Ok(scope)
                    } else {
                        Err((name, scope[name], value_type))
                    }
                } else {
                    Ok(scope.insert(name, value_type))
                }
            },
        }
    }
}

/// What is declared, by name and type.
pub open spec fn declared_view(declared: Seq<(String, AnimatedValueType)>) -> Seq<(Seq<char>, AnimatedValueType)> {
    declared.map_values(|entry: (String, AnimatedValueType)| (entry.0@, entry.1))
}

/// The parameters in scope while the menu of an avatar is read: the expression parameters and
/// the parameters of every controller, in order. A name may be declared more than once with one
/// type; with two types it is refused.
pub fn avatar_scope(declared: &[(String, AnimatedValueType)]) -> (result: Result<ParameterTypes, DecodeError>)
    ensures
        match scope_after(Map::empty(), declared_view(declared@)) {
            Ok(types) => result matches Ok(scope) && scope.wf() && scope.types() == types,
            Err((name, first, second)) => result matches Err(
                DecodeError::ConflictingParameter { name: reported, first: f, second: s },
            ) && reported@ == name && f == first && s == second,
        },
{
    let ghost all = declared_view(declared@);
    let mut scope = ParameterTypes::new();
    let mut i: usize = 0;
    assert(all.take(0) =~= Seq::<(Seq<char>, AnimatedValueType)>::empty());
    while i < declared.len()
        invariant
            i <= declared@.len(),
            all == declared_view(declared@),
            scope.wf(),
            scope_after(Map::empty(), all.take(i as int)) == Ok::<
                Map<Seq<char>, AnimatedValueType>,
                (Seq<char>, AnimatedValueType, AnimatedValueType),
            >(scope.types()),
        decreases declared@.len() - i,
    {
        let (name, value_type) = &declared[i];
        assert(all.take(i + 1).drop_last() =~= all.take(i as int));
        assert(all.take(i + 1).last() == (name@, *value_type));
        match add_parameter(&mut scope, name.as_str(), *value_type) {
            Ok(()) => {},
            Err(error) => {
                proof {
                    lemma_scope_conflict_persists(Map::empty(), all, i + 1);
                }
                return Err(error);
            },
        }
        i = i + 1;
    }
    assert(all.take(i as int) =~= all);
    Ok(scope)
}

proof fn lemma_scope_conflict_persists(
    types: Map<Seq<char>, AnimatedValueType>,
    declared: Seq<(Seq<char>, AnimatedValueType)>,
    k: int,
)
    requires
        0 <= k <= declared.len(),
        scope_after(types, declared.take(k)) is Err,
    ensures
        scope_after(types, declared) == scope_after(types, declared.take(k)),
    decreases declared.len(),
{
    if k == declared.len() {
        assert(declared.take(k) =~= declared);
    } else {
        let front = declared.drop_last();
        assert(front.take(k) =~= declared.take(k));
        lemma_scope_conflict_persists(types, front, k);
    }
}

} // verus!
