//! References before and after the transform checks them.
use vstd::prelude::*;
use vstd::std_specs::cmp::PartialEqSpec;

verus! {

/// Position in the script where a reference was written.
#[derive(Debug, Clone, PartialEq, Eq, PartialOrd, Ord, Hash)]
pub struct SourceLocation {
    pub chunk: String,
    pub line: u32,
}

impl DeepView for SourceLocation {
    type V = (Seq<char>, u32);

    open spec fn deep_view(&self) -> (Seq<char>, u32) {
        (self.chunk@, self.line)
    }
}

impl SourceLocation {
    /// Whether two locations name the same line of the same chunk.
    pub fn same_as(&self, other: &SourceLocation) -> (same: bool)
        ensures
            same == (self.deep_view() == other.deep_view()),
    {
        self.line == other.line && self.chunk == other.chunk
    }

    /// A copy that names the same line of the same chunk.
    pub fn duplicate(&self) -> (copy: SourceLocation)
        ensures
            copy == *self,
    {
        SourceLocation { chunk: self.chunk.clone(), line: self.line }
    }
}

/// A copy of an optional location.
pub fn duplicate_location(at: &Option<SourceLocation>) -> (copy: Option<SourceLocation>)
    ensures
        copy == *at,
{
    match at {
        Some(location) => Some(location.duplicate()),
        None => None,
    }
}

/// A reference that is only known by its name; whether it exists is not yet checked.
/// Two references to the same name are the same reference, wherever they were written.
#[derive(Debug, Clone)]
pub struct Unresolved<T> {
    pub value: T,
    pub at: Option<SourceLocation>,
}

impl<T> Unresolved<T> {
    pub fn new(value: T) -> (unresolved: Unresolved<T>)
        ensures
            unresolved.value == value,
            unresolved.at is None,
    {
        Unresolved { value, at: None }
    }

    pub fn located(value: T, at: SourceLocation) -> (unresolved: Unresolved<T>)
        ensures
            unresolved.value == value,
            unresolved.at == Some(at),
    {
        Unresolved { value, at: Some(at) }
    }
}

impl<T> From<T> for Unresolved<T> {
    fn from(value: T) -> (unresolved: Unresolved<T>) {
        Unresolved::new(value)
    }
}

impl<T> vstd::std_specs::convert::FromSpecImpl<T> for Unresolved<T> {
    open spec fn obeys_from_spec() -> bool {
        true
    }

    open spec fn from_spec(value: T) -> Unresolved<T> {
        Unresolved { value, at: None }
    }
}

impl<T: DeepView> DeepView for Unresolved<T> {
    type V = (T::V, Option<(Seq<char>, u32)>);

    open spec fn deep_view(&self) -> Self::V {
        (self.value.deep_view(), self.at.deep_view())
    }
}

impl Unresolved<String> {
    /// A copy of a reference to a name, written at the same place.
    pub fn duplicate(&self) -> (copy: Unresolved<String>)
        ensures
            copy == *self,
    {
        Unresolved { value: self.value.clone(), at: duplicate_location(&self.at) }
    }
}

impl<T: PartialEq> PartialEq for Unresolved<T> {
    fn eq(&self, other: &Self) -> (equal: bool) {
        self.value == other.value
    }
}

impl<T: PartialEq> vstd::std_specs::cmp::PartialEqSpecImpl for Unresolved<T> {
    open spec fn obeys_eq_spec() -> bool {
        <T as PartialEqSpec>::obeys_eq_spec()
    }

    open spec fn eq_spec(&self, other: &Self) -> bool {
        self.value.eq_spec(&other.value)
    }
}

impl<T: Eq> Eq for Unresolved<T> {
}

/// Comparing two references looks at their names only: where each was written plays no part.
pub proof fn law_unresolved_identity_ignores_location<T: PartialEq>(
    value: T,
    first: Option<SourceLocation>,
    second: Option<SourceLocation>,
    other: T,
)
    ensures
        (Unresolved { value, at: first }).eq_spec(&Unresolved { value: other, at: second }) == value.eq_spec(
            &other,
        ),
{
}

/// A reference whose existence has been confirmed, with what was learned while resolving it.
#[derive(Debug, Clone, PartialEq, Eq, PartialOrd, Ord, Hash)]
pub struct Resolved<T, C> {
    pub value: T,
    pub context: C,
}

impl<T, C> Resolved<T, C> {
    pub fn new(value: T, context: C) -> (resolved: Resolved<T, C>)
        ensures
            resolved.value == value,
            resolved.context == context,
    {
        Resolved { value, context }
    }
}

} // verus!
