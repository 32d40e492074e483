//! Every animator parameter of an avatar, in the order they were declared or generated, and how
//! a reference to a parameter is resolved against them.
use vstd::prelude::*;

use crate::declaration::{ParameterScope, ProvidedParameterGroup};
use crate::resolution::{duplicate_location, Resolved, SourceLocation, Unresolved};
use crate::transform_error::{TransformError, TransformErrorKind};
use crate::value::{AnimatedValueType, AnimatorParameterType};

verus! {

/// Where a parameter came from.
#[derive(Debug, Clone, Copy, PartialEq, Eq, Structural)]
pub enum ParameterSource {
    /// Declared by the script.
    Declared,
    /// Provided by the platform.
    Provided,
    /// Added by the transform for its own use.
    Generated,
}

/// The value a parameter starts at, as the script or the transform wrote it: a float as the bits
/// of the double it was written as, which the host narrows to the parameter's width.
#[derive(Debug, Clone, Copy, PartialEq, Eq)]
pub enum ParameterDefault {
    Bool(bool),
    Int(i64),
    Float(u64),
}

/// One animator parameter: its name, its type, the value it starts at if one was given, where it
/// came from, and where the script declared it, if it did.
#[derive(Debug, Clone, PartialEq)]
pub struct ParameterEntry {
    pub name: String,
    pub value_type: AnimatorParameterType,
    pub default: Option<ParameterDefault>,
    pub source: ParameterSource,
    pub at: Option<SourceLocation>,
}

/// A parameter reference once it is resolved: the parameter's name and the type of its values.
pub type ParameterRef = Resolved<String, AnimatedValueType>;

/// The position of the parameter named `name`, if there is one.
pub open spec fn find(entries: Seq<ParameterEntry>, name: Seq<char>) -> Option<int> {
    if exists|i: int| 0 <= i < entries.len() && entries[i].name@ == name {
        Some(choose|i: int| 0 <= i < entries.len() && entries[i].name@ == name)
    } else {
        None
    }
}

/// The error for a name that an existing parameter already has, by where that parameter came from.
pub open spec fn collision(existing: ParameterSource, name: String) -> TransformErrorKind {
    match existing {
        ParameterSource::Provided => TransformErrorKind::ParameterCollidesWithProvided { name },
        ParameterSource::Declared => TransformErrorKind::DuplicateParameter { name },
        ParameterSource::Generated => TransformErrorKind::GeneratedParameterCollision { name },
    }
}

/// What a reference to a parameter resolves to: the parameter's name and the type of its values,
/// or the error that the name is not declared, at the place of the reference.
pub open spec fn resolution(entries: Seq<ParameterEntry>, reference: Unresolved<String>) -> Result<
    ParameterRef,
    TransformError,
> {
    match find(entries, reference.value@) {
        Some(i) => Ok(Resolved { value: entries[i].name, context: entries[i].value_type.spec_animated_value_type() }),
        None => Err(TransformError { at: reference.at, kind: TransformErrorKind::UnknownParameter { name: reference.value } }),
    }
}

/// What a reference to a parameter whose values must be of `expected` resolves to.
pub open spec fn typed_resolution(
    entries: Seq<ParameterEntry>,
    reference: Unresolved<String>,
    expected: AnimatedValueType,
) -> Result<ParameterRef, TransformError> {
    match resolution(entries, reference) {
        Ok(resolved) => if resolved.context == expected {
            Ok(resolved)
        } else {
            Err(
                TransformError {
                    at: reference.at,
                    kind: TransformErrorKind::ParameterTypeMismatch {
                        name: resolved.value,
                        expected,
                        found: resolved.context,
                    },
                },
            )
        },
        Err(error) => Err(error),
    }
}

/// No two parameters have the same name.
pub open spec fn distinct_names(entries: Seq<ParameterEntry>) -> bool {
    forall|i: int, j: int| 0 <= i < j < entries.len() ==> #[trigger] entries[i].name@ != #[trigger] entries[j].name@
}

/// A parameter added under a new name is what a reference to that name resolves to, with the type
/// it was added with, and every other reference resolves as it did before.
pub proof fn law_added_parameter_resolves(
    entries: Seq<ParameterEntry>,
    added: ParameterEntry,
    reference: Unresolved<String>,
)
    requires
        distinct_names(entries),
        find(entries, added.name@) is None,
    ensures
        reference.value@ == added.name@ ==> resolution(entries.push(added), reference) == Ok::<
            ParameterRef,
            TransformError,
        >(Resolved { value: added.name, context: added.value_type.spec_animated_value_type() }),
        reference.value@ != added.name@ ==> resolution(entries.push(added), reference) == resolution(
            entries,
            reference,
        ),
{
    let all = entries.push(added);
    let last = entries.len() as int;
    if reference.value@ == added.name@ {
        assert(all[last].name@ == reference.value@);
        let chosen = choose|i: int| 0 <= i < all.len() && all[i].name@ == reference.value@;
        assert(chosen == last) by {
            if chosen < last {
                assert(entries[chosen].name@ == added.name@);
            }
        }
    } else {
        if exists|i: int| 0 <= i < entries.len() && entries[i].name@ == reference.value@ {
            let k = choose|i: int| 0 <= i < entries.len() && entries[i].name@ == reference.value@;
            assert(all[k] == entries[k]);
            let chosen = choose|i: int| 0 <= i < all.len() && all[i].name@ == reference.value@;
            assert(chosen < last);
            assert(all[chosen] == entries[chosen]);
        } else {
            assert forall|i: int| 0 <= i < all.len() implies all[i].name@ != reference.value@ by {
                if i < last {
                    assert(all[i] == entries[i]);
                }
            }
        }
    }
}

/// The parameters of an avatar. No two have the same name.
#[derive(Debug, Clone)]
pub struct ParameterTable {
    entries: Vec<ParameterEntry>,
}

impl ParameterTable {
    pub closed spec fn wf(&self) -> bool {
        distinct_names(self.entries@)
    }

    /// The parameters in the order they were added.
    pub closed spec fn entries(&self) -> Seq<ParameterEntry> {
        self.entries@
    }

    pub fn new() -> (table: ParameterTable)
        ensures
            table.wf(),
            table.entries() == Seq::<ParameterEntry>::empty(),
    {
        ParameterTable { entries: Vec::new() }
    }

    fn position(&self, name: &str) -> (found: Option<usize>)
        requires
            self.wf(),
        ensures
            match found {
                Some(i) => find(self.entries@, name@) == Some(i as int) && i < self.entries@.len()
                    && self.entries@[i as int].name@ == name@,
                None => find(self.entries@, name@) is None,
            },
    {
        let wanted = name.to_owned();
        let mut i: usize = 0;
        while i < self.entries.len()
            invariant
                i <= self.entries@.len(),
                self.wf(),
                wanted@ == name@,
                forall|k: int| 0 <= k < i ==> self.entries@[k].name@ != name@,
            decreases self.entries@.len() - i,
        {
            if self.entries[i].name == wanted {
                proof {
                    assert(self.entries@[i as int].name@ == name@);
                    let chosen = choose|k: int| 0 <= k < self.entries@.len() && self.entries@[k].name@ == name@;
                    assert(chosen == i) by {
                        if chosen < i {
                        } else if chosen > i {
                            assert(self.entries@[i as int].name@ != self.entries@[chosen].name@);
                        }
                    }
                }
                return Some(i);
            }
            i = i + 1;
        }
        None
    }

    fn push_new(&mut self, entry: ParameterEntry)
        requires
            old(self).wf(),
            find(old(self).entries(), entry.name@) is None,
        ensures
            final(self).wf(),
            final(self).entries() == old(self).entries().push(entry),
    {
        let ghost before = self.entries@;
        self.entries.push(entry);
        assert forall|i: int, j: int|
            0 <= i < j < self.entries@.len() implies #[trigger] self.entries@[i].name@
            != #[trigger] self.entries@[j].name@ by {
            if j == before.len() {
                assert(self.entries@[i] == before[i]);
            }
        }
    }

    /// Adds a parameter the script declared. A name already taken is refused, with the error that
    /// says what took it, at the place of the new declaration.
    pub fn declare(
        &mut self,
        name: &String,
        value_type: AnimatorParameterType,
        default: Option<ParameterDefault>,
        at: &Option<SourceLocation>,
    ) -> (result: Result<(), TransformError>)
        requires
            old(self).wf(),
        ensures
            final(self).wf(),
            match find(old(self).entries(), name@) {
                Some(i) => result == Err::<(), TransformError>(
                    TransformError { at: *at, kind: collision(old(self).entries()[i].source, *name) },
                ) && final(self).entries() == old(self).entries(),
                None => result is Ok && final(self).entries() == old(self).entries().push(
                    ParameterEntry { name: *name, value_type, default, source: ParameterSource::Declared, at: *at },
                ),
            },
    {
        match self.position(name.as_str()) {
            Some(i) => {
                let kind = match self.entries[i].source {
                    ParameterSource::Provided => TransformErrorKind::ParameterCollidesWithProvided { name: name.clone() },
                    ParameterSource::Declared => TransformErrorKind::DuplicateParameter { name: name.clone() },
                    ParameterSource::Generated => TransformErrorKind::GeneratedParameterCollision { name: name.clone() },
                };
                Err(kind.at(duplicate_location(at)))
            },
            None => {
                self.push_new(
                    ParameterEntry {
                        name: name.clone(),
                        value_type,
                        default,
                        source: ParameterSource::Declared,
                        at: duplicate_location(at),
                    },
                );
                Ok(())
            },
        }
    }

    /// Adds a parameter the platform provides. A name already taken is refused; the error points
    /// at the declaration that took it, when the script declared it.
    pub fn provide(&mut self, name: &String, value_type: AnimatorParameterType) -> (result: Result<(), TransformError>)
        requires
            old(self).wf(),
        ensures
            final(self).wf(),
            match find(old(self).entries(), name@) {
                Some(i) => result == Err::<(), TransformError>(
                    TransformError {
                        at: if old(self).entries()[i].source is Declared {
                            old(self).entries()[i].at
                        } else {
                            None
                        },
                        kind: TransformErrorKind::ParameterCollidesWithProvided { name: *name },
                    },
                ) && final(self).entries() == old(self).entries(),
                None => result is Ok && final(self).entries() == old(self).entries().push(
                    ParameterEntry { name: *name, value_type, default: None, source: ParameterSource::Provided, at: None },
                ),
            },
    {
        match self.position(name.as_str()) {
            Some(i) => {
                let at = match self.entries[i].source {
                    ParameterSource::Declared => duplicate_location(&self.entries[i].at),
                    _ => None,
                };
                Err(TransformErrorKind::ParameterCollidesWithProvided { name: name.clone() }.at(at))
            },
            None => {
                self.push_new(
                    ParameterEntry {
                        name: name.clone(),
                        value_type,
                        default: None,
                        source: ParameterSource::Provided,
                        at: None,
                    },
                );
                Ok(())
            },
        }
    }

    /// Adds an animator-only parameter the transform needs for itself, starting at `default` if
    /// one is given, and resolves it.
    pub fn generate(
        &mut self,
        name: String,
        value_type: AnimatorParameterType,
        default: Option<ParameterDefault>,
    ) -> (result: Result<
        ParameterRef,
        TransformError,
    >)
        requires
            old(self).wf(),
        ensures
            final(self).wf(),
            match find(old(self).entries(), name@) {
                Some(_) => result == Err::<ParameterRef, TransformError>(
                    TransformError { at: None, kind: TransformErrorKind::GeneratedParameterCollision { name } },
                ) && final(self).entries() == old(self).entries(),
                None => result == Ok::<ParameterRef, TransformError>(
                    Resolved { value: name, context: value_type.spec_animated_value_type() },
                ) && final(self).entries() == old(self).entries().push(
                    ParameterEntry { name, value_type, default, source: ParameterSource::Generated, at: None },
                ),
            },
    {
        match self.position(name.as_str()) {
            Some(_) => Err(TransformError::new(TransformErrorKind::GeneratedParameterCollision { name })),
            None => {
                let resolved = Resolved::new(name.clone(), value_type.animated_value_type());
                self.push_new(ParameterEntry { name, value_type, default, source: ParameterSource::Generated, at: None });
                Ok(resolved)
            },
        }
    }

    /// Resolves a reference to a parameter: its name and the type of its values, or the error that
    /// the name is not declared, at the place of the reference.
    pub fn resolve(&self, reference: &Unresolved<String>) -> (result: Result<ParameterRef, TransformError>)
        requires
            self.wf(),
        ensures
            result == resolution(self.entries(), *reference),
    {
        match self.position(reference.value.as_str()) {
            Some(i) => {
                let entry = &self.entries[i];
                Ok(Resolved::new(entry.name.clone(), entry.value_type.animated_value_type()))
            },
            None => Err(
                TransformErrorKind::UnknownParameter { name: reference.value.clone() }.at(
                    duplicate_location(&reference.at),
                ),
            ),
        }
    }

    /// Resolves a reference to a parameter whose values must be of `expected`.
    pub fn resolve_typed(&self, reference: &Unresolved<String>, expected: AnimatedValueType) -> (result: Result<
        ParameterRef,
        TransformError,
    >)
        requires
            self.wf(),
        ensures
            result == typed_resolution(self.entries(), *reference, expected),
    {
        let resolved = match self.resolve(reference) {
            Ok(resolved) => resolved,
            Err(error) => return Err(error),
        };
        if resolved.context != expected {
            return Err(
                TransformErrorKind::ParameterTypeMismatch {
                    name: resolved.value,
                    expected,
                    found: resolved.context,
                }.at(duplicate_location(&reference.at)),
            );
        }
        Ok(resolved)
    }

    /// The parameters in the order they were added.
    pub fn entry_list(&self) -> (entries: &Vec<ParameterEntry>)
        ensures
            entries@ == self.entries(),
    {
        &self.entries
    }
}

/// How a declared parameter appears among the expression parameters of the avatar.
#[derive(Debug, Clone, PartialEq, Eq)]
pub struct ExpressionEntry {
    pub name: String,
    pub value_type: AnimatorParameterType,
    /// The bits an int or float is synced with, where the script gave them.
    pub width: Option<u8>,
    pub saved: bool,
    pub synced: bool,
}

/// The expression parameter for a parameter declared as `name` of `value_type`, with the width,
/// scope and save flag the script wrote: none for an internal parameter; otherwise synced unless
/// it is local, saved only when asked, and with a width only for an int or a float.
pub fn expression_entry(
    name: &String,
    value_type: AnimatorParameterType,
    width: Option<u8>,
    scope: Option<ParameterScope>,
    save: Option<bool>,
) -> (entry: Option<ExpressionEntry>)
    ensures
        scope == Some(ParameterScope::Internal) ==> entry is None,
        scope != Some(ParameterScope::Internal) ==> entry == Some(
            ExpressionEntry {
                name: *name,
                value_type,
                width: if value_type is Bool {
                    None
                } else {
                    width
                },
                saved: save == Some(true),
                synced: scope != Some(ParameterScope::Local),
            },
        ),
{
    let scope = match scope {
        Some(scope) => scope,
        None => ParameterScope::Synced,
    };
    let synced = match scope {
        ParameterScope::Internal => return None,
        ParameterScope::Local => false,
        ParameterScope::Synced => true,
    };
    let width = match value_type {
        AnimatorParameterType::Bool => None,
        _ => width,
    };
    let saved = match save {
        Some(saved) => saved,
        None => false,
    };
    Some(ExpressionEntry { name: name.clone(), value_type, width, saved, synced })
}

/// A parameter entry of a declaration: one the script declares, a group the platform provides,
/// with the parameters of that group, or a gate the script exports.
#[derive(Debug, Clone, PartialEq)]
pub enum ParameterOutline {
    Primitive {
        name: String,
        value_type: AnimatorParameterType,
        default: Option<ParameterDefault>,
        at: Option<SourceLocation>,
    },
    Provided { group: ProvidedParameterGroup, parameters: Vec<(String, AnimatorParameterType)> },
    /// A gate the script exports: other assets drive it through the bool parameter of its name.
    Gate { name: String, at: Option<SourceLocation> },
}

/// The parameters after declaring `name`, and the error if the name is taken.
pub open spec fn declare_step(
    entries: Seq<ParameterEntry>,
    name: String,
    value_type: AnimatorParameterType,
    default: Option<ParameterDefault>,
    at: Option<SourceLocation>,
) -> (Seq<ParameterEntry>, Option<TransformError>) {
    match find(entries, name@) {
        Some(i) => (entries, Some(TransformError { at, kind: collision(entries[i].source, name) })),
        None => (
            entries.push(ParameterEntry { name, value_type, default, source: ParameterSource::Declared, at }),
            None,
        ),
    }
}

/// The parameters after providing `name`, and the error if the name is taken.
pub open spec fn provide_step(entries: Seq<ParameterEntry>, name: String, value_type: AnimatorParameterType) -> (
    Seq<ParameterEntry>,
    Option<TransformError>,
) {
    match find(entries, name@) {
        Some(i) => (
            entries,
            Some(
                TransformError {
                    at: if entries[i].source is Declared {
                        entries[i].at
                    } else {
                        None
                    },
                    kind: TransformErrorKind::ParameterCollidesWithProvided { name },
                },
            ),
        ),
        None => (
            entries.push(ParameterEntry { name, value_type, default: None, source: ParameterSource::Provided, at: None }),
            None,
        ),
    }
}

/// The parameters after providing each of `provided` in turn, stopping at the first that fails.
pub open spec fn provide_all(entries: Seq<ParameterEntry>, provided: Seq<(String, AnimatorParameterType)>) -> (
    Seq<ParameterEntry>,
    Option<TransformError>,
)
    decreases provided.len(),
{
    if provided.len() == 0 {
        (entries, None)
    } else {
        let front = provide_all(entries, provided.drop_last());
        match front.1 {
            Some(error) => front,
            None => provide_step(front.0, provided.last().0, provided.last().1),
        }
    }
}

/// What the first pass records of the parameter entries of a declaration, in order: the
/// parameters, the groups provided so far, and every error on the way. A group provided twice is
/// an error named by `label`.
pub open spec fn collect_parameters_spec(outlines: Seq<ParameterOutline>, label: String) -> (
    Seq<ParameterEntry>,
    Seq<ProvidedParameterGroup>,
    Seq<TransformError>,
)
    decreases outlines.len(),
{
    if outlines.len() == 0 {
        (seq![], seq![], seq![])
    } else {
        let (entries, groups, errors) = collect_parameters_spec(outlines.drop_last(), label);
        match outlines.last() {
            ParameterOutline::Primitive { name, value_type, default, at } => {
                let (after, error) = declare_step(entries, name, value_type, default, at);
                (
                    after,
                    groups,
                    match error {
                        Some(error) => errors.push(error),
                        None => errors,
                    },
                )
            },
            ParameterOutline::Gate { name, at } => {
                let (after, error) = declare_step(entries, name, AnimatorParameterType::Bool, None, at);
                (
                    after,
                    groups,
                    match error {
                        Some(error) => errors.push(error),
                        None => errors,
                    },
                )
            },
            ParameterOutline::Provided { group, parameters } => if groups.contains(group) {
                (
                    entries,
                    groups,
                    errors.push(
                        TransformError { at: None, kind: TransformErrorKind::DuplicateProvidedGroup { group: label } },
                    ),
                )
            } else {
                let (after, error) = provide_all(entries, parameters@);
                (
                    after,
                    groups.push(group),
                    match error {
                        Some(error) => errors.push(error),
                        None => errors,
                    },
                )
            },
        }
    }
}

fn provide_group(table: &mut ParameterTable, provided: &Vec<(String, AnimatorParameterType)>) -> (result: Result<
    (),
    TransformError,
>)
    requires
        old(table).wf(),
    ensures
        final(table).wf(),
        final(table).entries() == provide_all(old(table).entries(), provided@).0,
        match provide_all(old(table).entries(), provided@).1 {
            Some(error) => result == Err::<(), TransformError>(error),
            None => result is Ok,
        },
{
    let ghost start = table.entries();
    let mut i: usize = 0;
    assert(provided@.take(0) =~= Seq::<(String, AnimatorParameterType)>::empty());
    while i < provided.len()
        invariant
            i <= provided@.len(),
            table.wf(),
            start == old(table).entries(),
            provide_all(start, provided@.take(i as int)) == (table.entries(), None::<TransformError>),
        decreases provided@.len() - i,
    {
        let (name, value_type) = &provided[i];
        assert(provided@.take(i + 1).drop_last() =~= provided@.take(i as int));
        assert(provided@.take(i + 1).last() == (*name, *value_type));
        match table.provide(name, *value_type) {
            Ok(()) => {},
            Err(error) => {
                proof {
                    lemma_provide_error_persists(start, provided@, i + 1);
                }
                return Err(error);
            },
        }
        i = i + 1;
    }
    assert(provided@.take(i as int) =~= provided@);
    Ok(())
}

proof fn lemma_provide_error_persists(
    entries: Seq<ParameterEntry>,
    provided: Seq<(String, AnimatorParameterType)>,
    k: int,
)
    requires
        0 <= k <= provided.len(),
        provide_all(entries, provided.take(k)).1 is Some,
    ensures
        provide_all(entries, provided) == provide_all(entries, provided.take(k)),
    decreases provided.len(),
{
    if k == provided.len() {
        assert(provided.take(k) =~= provided);
    } else {
        let front = provided.drop_last();
        assert(front.take(k) =~= provided.take(k));
        lemma_provide_error_persists(entries, front, k);
    }
}

/// Runs the first pass over the parameter entries of a declaration: each is recorded, and each
/// error is kept, so every entry gets checked. A group provided a second time is refused whole.
pub fn collect_parameters(outlines: &[ParameterOutline]) -> (collected: (ParameterTable, Vec<TransformError>))
    ensures
        collected.0.wf(),
        exists|label: String|
            label@ == "VRChat"@ && collected.0.entries() == collect_parameters_spec(outlines@, label).0
                && collected.1@ == collect_parameters_spec(outlines@, label).2,
{
    let label = String::from_str("VRChat");
    let mut table = ParameterTable::new();
    let mut groups: Vec<ProvidedParameterGroup> = Vec::new();
    let mut errors: Vec<TransformError> = Vec::new();
    let mut i: usize = 0;
    assert(outlines@.take(0) =~= Seq::<ParameterOutline>::empty());
    while i < outlines.len()
        invariant
            i <= outlines@.len(),
            table.wf(),
            label@ == "VRChat"@,
            collect_parameters_spec(outlines@.take(i as int), label) == (table.entries(), groups@, errors@),
        decreases outlines@.len() - i,
    {
        let outline = &outlines[i];
        assert(outlines@.take(i + 1).drop_last() =~= outlines@.take(i as int));
        assert(outlines@.take(i + 1).last() == *outline);
        match outline {
            ParameterOutline::Primitive { name, value_type, default, at } => {
                if let Err(error) = table.declare(name, *value_type, *default, at) {
                    errors.push(error);
                }
            },
            ParameterOutline::Gate { name, at } => {
                if let Err(error) = table.declare(name, AnimatorParameterType::Bool, None, at) {
                    errors.push(error);
                }
            },
            ParameterOutline::Provided { group, parameters } => {
                let mut seen = false;
                let mut g: usize = 0;
                while g < groups.len()
                    invariant
                        g <= groups@.len(),
                        seen == exists|k: int| 0 <= k < g && groups@[k] == *group,
                    decreases groups@.len() - g,
                {
                    if groups[g] == *group {
                        seen = true;
                    }
                    g = g + 1;
                }
                assert(seen == groups@.contains(*group));
                if seen {
                    errors.push(
                        TransformError::new(TransformErrorKind::DuplicateProvidedGroup { group: label.clone() }),
                    );
                } else {
                    groups.push(*group);
                    if let Err(error) = provide_group(&mut table, parameters) {
                        errors.push(error);
                    }
                }
            },
        }
        i = i + 1;
    }
    assert(outlines@.take(i as int) =~= outlines@);
    (table, errors)
}

} // verus!
