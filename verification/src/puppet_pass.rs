//! The plan of a puppet layer's blend tree: which targets its keyframes animate, that each target
//! keeps one value type across the keyframes, and where each keyframe takes the value of a
//! target it does not write.
use vstd::prelude::*;

use crate::describe::{describe, description};
use crate::parameters::{typed_resolution, ParameterRef, ParameterTable};
use crate::target::{AnimatedTarget, Declared};
use crate::resolution::{duplicate_location, SourceLocation, Unresolved};
use crate::transform_error::{TransformError, TransformErrorKind};
use crate::value::AnimatedValueType;
use crate::value_set::{contents_of, rank_of, sorted, MaybeZeroableEntry, ValueSet};

verus! {

/// What a keyframe writes under one target: the target, by rank, and the type of its value.
#[derive(Debug, Clone, Copy, PartialEq, Eq)]
pub struct TypedEntry {
    pub key: u64,
    pub value_type: AnimatedValueType,
}

impl MaybeZeroableEntry for TypedEntry {
    type Key = u64;

    open spec fn spec_key(&self) -> u64 {
        self.key
    }

    /// Every value but an object reference has a zero of its own type.
    open spec fn spec_zeroed(&self) -> Option<TypedEntry> {
        if self.value_type is ObjectReference {
            None
        } else {
            Some(*self)
        }
    }

    fn key(&self) -> (key: u64) {
        self.key
    }

    fn zeroed(&self) -> (zeroed: Option<TypedEntry>) {
        match self.value_type {
            AnimatedValueType::ObjectReference => None,
            _ => Some(*self),
        }
    }

    fn duplicate(&self) -> (copy: TypedEntry) {
        *self
    }
}

/// The type a keyframe writes the target of rank `rank` with, if it writes it.
pub open spec fn written_type(keyframe: ValueSet<TypedEntry>, rank: int) -> Option<AnimatedValueType> {
    if keyframe.contents().contains_key(rank) {
        Some(keyframe.contents()[rank].value_type)
    } else {
        None
    }
}

/// The first keyframe at or after `from` that writes the target.
pub open spec fn first_writer_from(keyframes: Seq<ValueSet<TypedEntry>>, rank: int, from: int) -> Option<int>
    decreases keyframes.len() - from,
{
    if from < 0 || from >= keyframes.len() {
        None
    } else if written_type(keyframes[from], rank) is Some {
        Some(from)
    } else {
        first_writer_from(keyframes, rank, from + 1)
    }
}

/// The last keyframe before `before` that writes the target.
pub open spec fn last_writer_before(keyframes: Seq<ValueSet<TypedEntry>>, rank: int, before: int) -> Option<int>
    decreases before,
{
    if before <= 0 || before > keyframes.len() {
        None
    } else if written_type(keyframes[before - 1], rank) is Some {
        Some(before - 1)
    } else {
        last_writer_before(keyframes, rank, before - 1)
    }
}

/// Whether a keyframe writes the target with a type other than `expected`.
pub open spec fn writes_other(keyframe: ValueSet<TypedEntry>, rank: int, expected: AnimatedValueType) -> bool {
    match written_type(keyframe, rank) {
        Some(found) => found != expected,
        None => false,
    }
}

/// The first keyframe at or after `from` that writes the target with a type other than `expected`.
pub open spec fn first_other_from(
    keyframes: Seq<ValueSet<TypedEntry>>,
    rank: int,
    expected: AnimatedValueType,
    from: int,
) -> Option<int>
    decreases keyframes.len() - from,
{
    if from < 0 || from >= keyframes.len() {
        None
    } else if writes_other(keyframes[from], rank, expected) {
        Some(from)
    } else {
        first_other_from(keyframes, rank, expected, from + 1)
    }
}

/// The type the first keyframe writing the target gives it, and the first other type a later
/// keyframe gives it, if one does.
pub open spec fn type_conflict(keyframes: Seq<ValueSet<TypedEntry>>, rank: int) -> Option<
    (AnimatedValueType, AnimatedValueType),
> {
    match first_writer_from(keyframes, rank, 0) {
        None => None,
        Some(i) => match written_type(keyframes[i], rank) {
            None => None,
            Some(first) => match first_other_from(keyframes, rank, first, i + 1) {
                None => None,
                Some(j) => match written_type(keyframes[j], rank) {
                    None => None,
                    Some(second) => Some((first, second)),
                },
            },
        },
    }
}

/// The ranks of every target some keyframe writes.
pub open spec fn all_ranks(keyframes: Seq<ValueSet<TypedEntry>>) -> Set<int>
    decreases keyframes.len(),
{
    if keyframes.len() == 0 {
        Set::empty()
    } else {
        all_ranks(keyframes.drop_last()).union(keyframes.last().contents().dom())
    }
}

/// Where a keyframe takes the value of one target.
#[derive(Debug, Clone, Copy, PartialEq, Eq)]
pub enum Sample {
    /// The keyframe writes it.
    Written,
    /// Between the nearest keyframes before and after that write it, by time.
    Between { previous: usize, next: usize },
    /// As the only keyframe on one side that writes it: held at the ends.
    Held(usize),
}

/// Where keyframe `position` takes the value of the target: its own, interpolated between the
/// nearest writers on each side, or held from the nearest writer where only one side has one.
/// A target that no keyframe writes is taken as written.
pub open spec fn sample_at(keyframes: Seq<ValueSet<TypedEntry>>, rank: int, position: int) -> Sample {
    if written_type(keyframes[position], rank) is Some {
        Sample::Written
    } else {
        match (last_writer_before(keyframes, rank, position), first_writer_from(keyframes, rank, position + 1)) {
            (Some(previous), Some(next)) => Sample::Between { previous: previous as usize, next: next as usize },
            (Some(previous), None) => Sample::Held(previous as usize),
            (None, Some(next)) => Sample::Held(next as usize),
            (None, None) => Sample::Written,
        }
    }
}

/// `keys` are the ranks of `ranks`, each once, in increasing order.
pub open spec fn ranks_in_order(keys: Seq<u64>, ranks: Set<int>) -> bool {
    &&& forall|i: int, j: int| 0 <= i < j < keys.len() ==> #[trigger] keys[i] < #[trigger] keys[j]
    &&& forall|i: int| 0 <= i < keys.len() ==> ranks.contains(#[trigger] keys[i] as int)
    &&& forall|r: int| #[trigger] ranks.contains(r) ==> exists|i: int| 0 <= i < keys.len() && keys[i] as int == r
}

fn first_writer(keyframes: &Vec<ValueSet<TypedEntry>>, key: u64, from: usize) -> (found: Option<usize>)
    ensures
        match found {
            Some(i) => first_writer_from(keyframes@, key as int, from as int) == Some(i as int) && i < keyframes@.len(),
            None => first_writer_from(keyframes@, key as int, from as int) is None,
        },
{
    let mut i = from;
    while i < keyframes.len()
        invariant
            from <= i,
            first_writer_from(keyframes@, key as int, from as int) == first_writer_from(keyframes@, key as int, i as int),
        decreases keyframes@.len() - i,
    {
        if keyframes[i].contains_key(&key) {
            return Some(i);
        }
        i = i + 1;
    }
    None
}

fn last_writer(keyframes: &Vec<ValueSet<TypedEntry>>, key: u64, before: usize) -> (found: Option<usize>)
    requires
        before <= keyframes@.len(),
    ensures
        match found {
            Some(i) => last_writer_before(keyframes@, key as int, before as int) == Some(i as int),
            None => last_writer_before(keyframes@, key as int, before as int) is None,
        },
{
    let mut i = before;
    while i > 0
        invariant
            i <= before <= keyframes@.len(),
            last_writer_before(keyframes@, key as int, before as int) == last_writer_before(keyframes@, key as int, i as int),
        decreases i,
    {
        if keyframes[i - 1].contains_key(&key) {
            return Some(i - 1);
        }
        i = i - 1;
    }
    None
}

fn first_other(keyframes: &Vec<ValueSet<TypedEntry>>, key: u64, expected: AnimatedValueType, from: usize) -> (found:
    Option<usize>)
    ensures
        match found {
            Some(i) => first_other_from(keyframes@, key as int, expected, from as int) == Some(i as int) && i
                < keyframes@.len(),
            None => first_other_from(keyframes@, key as int, expected, from as int) is None,
        },
{
    let mut i = from;
    while i < keyframes.len()
        invariant
            from <= i,
            first_other_from(keyframes@, key as int, expected, from as int) == first_other_from(
                keyframes@,
                key as int,
                expected,
                i as int,
            ),
        decreases keyframes@.len() - i,
    {
        let other = match keyframes[i].get(&key) {
            Some(entry) => entry.value_type != expected,
            None => false,
        };
        if other {
            return Some(i);
        }
        i = i + 1;
    }
    None
}

/// The ranks of the entries of `entries`.
pub open spec fn entry_ranks(entries: Seq<TypedEntry>) -> Set<int> {
    Set::new(|r: int| exists|m: int| 0 <= m < entries.len() && rank_of(entries[m]) == r)
}

/// Every target some keyframe writes, by rank, each once and in increasing order.
pub fn union_ranks(keyframes: &Vec<ValueSet<TypedEntry>>) -> (keys: Vec<u64>)
    ensures
        ranks_in_order(keys@, all_ranks(keyframes@)),
{
    let ghost all = keyframes@;
    let mut union: ValueSet<TypedEntry> = ValueSet::new();
    let mut i: usize = 0;
    assert(all.take(0) =~= Seq::<ValueSet<TypedEntry>>::empty());
    assert(union.contents().dom() =~= all_ranks(all.take(0)));
    while i < keyframes.len()
        invariant
            i <= all.len(),
            all == keyframes@,
            union.contents().dom() == all_ranks(all.take(i as int)),
        decreases all.len() - i,
    {
        let entries = keyframes[i].entries();
        let ghost written = keyframes@[i as int].ordered();
        let ghost before = union.contents().dom();
        let mut j: usize = 0;
        assert(before.union(entry_ranks(written.take(0))) =~= before);
        while j < entries.len()
            invariant
                j <= written.len(),
                entries@ == written,
                union.contents().dom() == before.union(entry_ranks(written.take(j as int))),
            decreases written.len() - j,
        {
            let entry = entries[j];
            assert(entry == written[j as int]);
            if !union.contains_key(&entry.key) {
                union.insert(entry);
            }
            proof {
                let longer = written.take(j + 1);
                let shorter = written.take(j as int);
                assert(longer[j as int] == entry);
                assert forall|r: int| entry_ranks(longer).contains(r) implies entry_ranks(shorter).insert(
                    rank_of(entry),
                ).contains(r) by {
                    let m = choose|m: int| 0 <= m < longer.len() && rank_of(#[trigger] longer[m]) == r;
                    if m < j {
                        assert(shorter[m] == longer[m]);
                    }
                }
                assert forall|r: int| entry_ranks(shorter).insert(rank_of(entry)).contains(r) implies entry_ranks(
                    longer,
                ).contains(r) by {
                    if r != rank_of(entry) {
                        let m = choose|m: int| 0 <= m < shorter.len() && rank_of(#[trigger] shorter[m]) == r;
                        assert(longer[m] == shorter[m]);
                    }
                }
                assert(entry_ranks(longer) =~= entry_ranks(shorter).insert(rank_of(entry)));
            }
            assert(union.contents().dom() =~= before.union(entry_ranks(written.take(j + 1))));
            j = j + 1;
        }
        assert(written.take(j as int) =~= written);
        assert(entry_ranks(written) =~= keyframes@[i as int].contents().dom());
        assert(all.take(i + 1).drop_last() =~= all.take(i as int));
        assert(union.contents().dom() =~= all_ranks(all.take(i + 1)));
        i = i + 1;
    }
    assert(all.take(i as int) =~= all);
    let ordered = union.entries();
    let ghost merged = union.ordered();
    let mut keys: Vec<u64> = Vec::new();
    let mut k: usize = 0;
    while k < ordered.len()
        invariant
            k <= merged.len(),
            ordered@ == merged,
            sorted(merged),
            keys@.len() == k,
            forall|m: int| 0 <= m < k ==> #[trigger] keys@[m] == merged[m].key,
        decreases merged.len() - k,
    {
        keys.push(ordered[k].key);
        k = k + 1;
    }
    proof {
        assert forall|a: int, b: int| 0 <= a < b < keys@.len() implies #[trigger] keys@[a] < #[trigger] keys@[b] by {
            assert(rank_of(merged[a]) < rank_of(merged[b]));
        }
        assert forall|a: int| 0 <= a < keys@.len() implies all_ranks(all).contains(#[trigger] keys@[a] as int) by {
            assert(contents_of(merged).dom().contains(rank_of(merged[a])));
        }
        assert forall|r: int| #[trigger] all_ranks(all).contains(r) implies exists|a: int|
            0 <= a < keys@.len() && keys@[a] as int == r by {
            assert(contents_of(merged).dom().contains(r));
            let a = choose|a: int| 0 <= a < merged.len() && rank_of(merged[a]) == r;
            assert(keys@[a] as int == r);
        }
    }
    keys
}

/// A target that the keyframes of a puppet write with two types: the first keyframe's type and
/// the first other one.
#[derive(Debug, Clone, Copy, PartialEq, Eq)]
pub struct KeyframeConflict {
    pub key: u64,
    pub first: AnimatedValueType,
    pub second: AnimatedValueType,
}

/// The targets of a puppet layer, in key order, and for each keyframe where it takes the value of
/// each target: `samples[p][m]` is how keyframe `p` gets target `keys[m]`.
#[derive(Debug, Clone, PartialEq)]
pub struct PuppetPlan {
    pub keys: Vec<u64>,
    pub samples: Vec<Vec<Sample>>,
}

fn sample(keyframes: &Vec<ValueSet<TypedEntry>>, key: u64, position: usize) -> (found: Sample)
    requires
        position < keyframes@.len(),
    ensures
        found == sample_at(keyframes@, key as int, position as int),
{
    if keyframes[position].contains_key(&key) {
        return Sample::Written;
    }
    let count = keyframes.len();
    assert(position + 1 <= count);
    match (last_writer(keyframes, key, position), first_writer(keyframes, key, position + 1)) {
        (Some(previous), Some(next)) => Sample::Between { previous, next },
        (Some(previous), None) => Sample::Held(previous),
        (None, Some(next)) => Sample::Held(next),
        (None, None) => Sample::Written,
    }
}

fn conflict_of(keyframes: &Vec<ValueSet<TypedEntry>>, key: u64) -> (found: Option<KeyframeConflict>)
    ensures
        match found {
            Some(conflict) => conflict.key == key && type_conflict(keyframes@, key as int) == Some(
                (conflict.first, conflict.second),
            ),
            None => type_conflict(keyframes@, key as int) is None,
        },
{
    let i = match first_writer(keyframes, key, 0) {
        Some(i) => i,
        None => return None,
    };
    let first = match keyframes[i].get(&key) {
        Some(entry) => entry.value_type,
        None => return None,
    };
    let count = keyframes.len();
    assert(i + 1 <= count);
    let o = match first_other(keyframes, key, first, i + 1) {
        Some(o) => o,
        None => return None,
    };
    match keyframes[o].get(&key) {
        Some(entry) => Some(KeyframeConflict { key, first, second: entry.value_type }),
        None => None,
    }
}

/// Plans the blend tree of a puppet layer whose keyframes, in time order, write these targets:
/// every target keeps one value type across the keyframes, or the smallest target that does not
/// is the error; each keyframe then gets each target as written, between its nearest writers, or
/// held from the only writer on one side.
pub fn plan_puppet(keyframes: &Vec<ValueSet<TypedEntry>>) -> (result: Result<PuppetPlan, KeyframeConflict>)
    ensures
        match result {
            Ok(plan) => {
                &&& forall|r: int| #[trigger] all_ranks(keyframes@).contains(r) ==> type_conflict(keyframes@, r) is None
                &&& ranks_in_order(plan.keys@, all_ranks(keyframes@))
                &&& plan.samples@.len() == keyframes@.len()
                &&& forall|p: int| 0 <= p < keyframes@.len() ==> (#[trigger] plan.samples@[p])@.len() == plan.keys@.len()
                &&& forall|p: int, m: int|
                    0 <= p < keyframes@.len() && 0 <= m < plan.keys@.len() ==> #[trigger] plan.samples@[p]@[m]
                        == sample_at(keyframes@, plan.keys@[m] as int, p)
            },
            Err(conflict) => {
                &&& all_ranks(keyframes@).contains(conflict.key as int)
                &&& type_conflict(keyframes@, conflict.key as int) == Some((conflict.first, conflict.second))
                &&& forall|r: int|
                    #[trigger] all_ranks(keyframes@).contains(r) && r < conflict.key ==> type_conflict(keyframes@, r) is None
            },
        },
{
    let keys = union_ranks(keyframes);
    let ghost ranks = all_ranks(keyframes@);
    let mut j: usize = 0;
    while j < keys.len()
        invariant
            j <= keys@.len(),
            ranks == all_ranks(keyframes@),
            ranks_in_order(keys@, ranks),
            forall|m: int| 0 <= m < j ==> type_conflict(keyframes@, #[trigger] keys@[m] as int) is None,
        decreases keys@.len() - j,
    {
        let key = keys[j];
        match conflict_of(keyframes, key) {
            Some(conflict) => {
                proof {
                    assert(ranks.contains(keys@[j as int] as int));
                    assert forall|r: int| #[trigger] ranks.contains(r) && r < conflict.key implies type_conflict(
                        keyframes@,
                        r,
                    ) is None by {
                        let m = choose|m: int| 0 <= m < keys@.len() && keys@[m] as int == r;
                        if m >= j {
                            if m > j {
                                assert(keys@[j as int] < keys@[m]);
                            }
                        }
                        assert(m < j);
                    }
                }
                return Err(conflict);
            },
            None => {},
        }
        j = j + 1;
    }
    proof {
        assert forall|r: int| #[trigger] ranks.contains(r) implies type_conflict(keyframes@, r) is None by {
            let m = choose|m: int| 0 <= m < keys@.len() && keys@[m] as int == r;
            assert(type_conflict(keyframes@, keys@[m] as int) is None);
        }
    }
    let mut samples: Vec<Vec<Sample>> = Vec::new();
    let mut p: usize = 0;
    while p < keyframes.len()
        invariant
            p <= keyframes@.len(),
            samples@.len() == p,
            forall|q: int| 0 <= q < p ==> (#[trigger] samples@[q])@.len() == keys@.len(),
            forall|q: int, m: int|
                0 <= q < p && 0 <= m < keys@.len() ==> #[trigger] samples@[q]@[m] == sample_at(
                    keyframes@,
                    keys@[m] as int,
                    q,
                ),
        decreases keyframes@.len() - p,
    {
        let mut row: Vec<Sample> = Vec::new();
        let mut m: usize = 0;
        while m < keys.len()
            invariant
                p < keyframes@.len(),
                m <= keys@.len(),
                row@.len() == m,
                forall|n: int| 0 <= n < m ==> #[trigger] row@[n] == sample_at(keyframes@, keys@[n] as int, p as int),
            decreases keys@.len() - m,
        {
            row.push(sample(keyframes, keys[m], p));
            m = m + 1;
        }
        samples.push(row);
        p = p + 1;
    }
    Ok(PuppetPlan { keys, samples })
}

/// The float parameter of a puppet layer named `layer`, written at `at`, with `keyframes`
/// keyframes: the parameter is resolved first, and a puppet needs at least one keyframe.
pub fn puppet_parameter(
    parameters: &ParameterTable,
    reference: &Unresolved<String>,
    layer: &String,
    at: &Option<SourceLocation>,
    keyframes: usize,
) -> (result: Result<ParameterRef, TransformError>)
    requires
        parameters.wf(),
    ensures
        match typed_resolution(parameters.entries(), *reference, AnimatedValueType::Float) {
            Err(error) => result == Err::<ParameterRef, TransformError>(error),
            Ok(parameter) => result == if keyframes == 0 {
                Err::<ParameterRef, TransformError>(
                    TransformError { at: *at, kind: TransformErrorKind::NoKeyframes { layer: *layer } },
                )
            } else {
                Ok(parameter)
            },
        },
{
    let parameter = match parameters.resolve_typed(reference, AnimatedValueType::Float) {
        Ok(parameter) => parameter,
        Err(error) => return Err(error),
    };
    if keyframes == 0 {
        return Err(TransformErrorKind::NoKeyframes { layer: layer.clone() }.at(duplicate_location(at)));
    }
    Ok(parameter)
}

/// The first of `keys` at or after `from` that `claimed` holds.
pub open spec fn first_claimed_from(keys: Seq<u64>, claimed: Set<int>, from: int) -> Option<int>
    decreases keys.len() - from,
{
    if from < 0 || from >= keys.len() {
        None
    } else if claimed.contains(keys[from] as int) {
        Some(from)
    } else {
        first_claimed_from(keys, claimed, from + 1)
    }
}

/// The targets the children of a blend layer animate so far. Children sum their values instead
/// of overriding one another, so no two may animate the same target.
#[derive(Debug, Clone)]
pub struct BlendTargets {
    claimed: Vec<u64>,
}

impl BlendTargets {
    /// The targets claimed, by rank.
    pub closed spec fn claimed(&self) -> Set<int> {
        Set::new(|r: int| exists|i: int| 0 <= i < self.claimed@.len() && self.claimed@[i] as int == r)
    }

    pub fn new() -> (targets: BlendTargets)
        ensures
            targets.claimed() == Set::<int>::empty(),
    {
        let targets = BlendTargets { claimed: Vec::new() };
        assert(targets.claimed() =~= Set::<int>::empty());
        targets
    }

    fn holds(&self, key: u64) -> (found: bool)
        ensures
            found == self.claimed().contains(key as int),
    {
        let mut i: usize = 0;
        while i < self.claimed.len()
            invariant
                i <= self.claimed@.len(),
                forall|j: int| 0 <= j < i ==> self.claimed@[j] != key,
            decreases self.claimed@.len() - i,
        {
            if self.claimed[i] == key {
                return true;
            }
            i = i + 1;
        }
        false
    }

    /// Claims the targets of the next child, `keys`. The first of them that an earlier child
    /// animates is the error, and then nothing is claimed.
    pub fn claim(&mut self, keys: &[u64]) -> (result: Result<(), u64>)
        ensures
            match first_claimed_from(keys@, old(self).claimed(), 0) {
                Some(i) => result == Err::<(), u64>(keys@[i]) && final(self).claimed() == old(self).claimed(),
                None => result is Ok && final(self).claimed() == old(self).claimed().union(
                    Set::new(|r: int| exists|i: int| 0 <= i < keys@.len() && keys@[i] as int == r),
                ),
            },
    {
        let ghost start = self.claimed();
        let mut i: usize = 0;
        while i < keys.len()
            invariant
                i <= keys@.len(),
                self.claimed() == start,
                first_claimed_from(keys@, start, 0) == first_claimed_from(keys@, start, i as int),
            decreases keys@.len() - i,
        {
            if self.holds(keys[i]) {
                return Err(keys[i]);
            }
            i = i + 1;
        }
        let ghost before = self.claimed@;
        let mut j: usize = 0;
        while j < keys.len()
            invariant
                j <= keys@.len(),
                self.claimed@ == before + keys@.take(j as int),
            decreases keys@.len() - j,
        {
            self.claimed.push(keys[j]);
            assert(self.claimed@ =~= before + keys@.take(j + 1));
            j = j + 1;
        }
        assert(keys@.take(j as int) =~= keys@);
        proof {
            let added = Set::new(|r: int| exists|i: int| 0 <= i < keys@.len() && keys@[i] as int == r);
            assert forall|r: int| self.claimed().contains(r) implies start.union(added).contains(r) by {
                let k = choose|k: int| 0 <= k < self.claimed@.len() && self.claimed@[k] as int == r;
                if k < before.len() {
                    assert(self.claimed@[k] == before[k]);
                } else {
                    assert(self.claimed@[k] == keys@[k - before.len()]);
                }
            }
            assert forall|r: int| start.union(added).contains(r) implies self.claimed().contains(r) by {
                if start.contains(r) {
                    let k = choose|k: int| 0 <= k < before.len() && before[k] as int == r;
                    assert(self.claimed@[k] == before[k]);
                } else {
                    let k = choose|k: int| 0 <= k < keys@.len() && keys@[k] as int == r;
                    assert(self.claimed@[before.len() + k] == keys@[k]);
                }
            }
            assert(self.claimed() =~= start.union(added));
        }
        Ok(())
    }
}

proof fn lemma_first_writer(keyframes: Seq<ValueSet<TypedEntry>>, rank: int, from: int)
    requires
        0 <= from,
    ensures
        match first_writer_from(keyframes, rank, from) {
            Some(i) => from <= i < keyframes.len() && written_type(keyframes[i], rank) is Some && forall|k: int|
                from <= k < i ==> written_type(#[trigger] keyframes[k], rank) is None,
            None => forall|k: int| from <= k < keyframes.len() ==> written_type(#[trigger] keyframes[k], rank) is None,
        },
    decreases keyframes.len() - from,
{
    if from < keyframes.len() && written_type(keyframes[from], rank) is None {
        lemma_first_writer(keyframes, rank, from + 1);
    }
}

proof fn lemma_last_writer(keyframes: Seq<ValueSet<TypedEntry>>, rank: int, before: int)
    requires
        before <= keyframes.len(),
    ensures
        match last_writer_before(keyframes, rank, before) {
            Some(i) => 0 <= i < before && written_type(keyframes[i], rank) is Some && forall|k: int|
                i < k < before ==> written_type(#[trigger] keyframes[k], rank) is None,
            None => forall|k: int| 0 <= k < before ==> written_type(#[trigger] keyframes[k], rank) is None,
        },
    decreases before,
{
    if before > 0 && written_type(keyframes[before - 1], rank) is None {
        lemma_last_writer(keyframes, rank, before - 1);
    }
}

proof fn lemma_ranks_are_written(keyframes: Seq<ValueSet<TypedEntry>>, rank: int)
    requires
        all_ranks(keyframes).contains(rank),
    ensures
        exists|k: int| 0 <= k < keyframes.len() && written_type(#[trigger] keyframes[k], rank) is Some,
    decreases keyframes.len(),
{
    let front = keyframes.drop_last();
    if all_ranks(front).contains(rank) {
        lemma_ranks_are_written(front, rank);
        let k = choose|k: int| 0 <= k < front.len() && written_type(#[trigger] front[k], rank) is Some;
        assert(keyframes[k] == front[k]);
    } else {
        assert(written_type(keyframes[keyframes.len() - 1], rank) is Some);
    }
}

/// Every keyframe gets a target that some keyframe writes from a keyframe that writes it: its
/// own value; or the nearest writers before and after it, with none between them; or, where only
/// one side has a writer, the nearest writer on that side.
pub proof fn law_samples_come_from_the_nearest_writers(
    keyframes: Seq<ValueSet<TypedEntry>>,
    rank: int,
    position: int,
)
    requires
        all_ranks(keyframes).contains(rank),
        0 <= position < keyframes.len(),
        keyframes.len() <= usize::MAX,
    ensures
        match sample_at(keyframes, rank, position) {
            Sample::Written => written_type(keyframes[position], rank) is Some,
            Sample::Between { previous, next } => {
                &&& previous < position < next < keyframes.len()
                &&& written_type(keyframes[previous as int], rank) is Some
                &&& written_type(keyframes[next as int], rank) is Some
                &&& forall|k: int| previous < k < next ==> written_type(#[trigger] keyframes[k], rank) is None
            },
            Sample::Held(from) => {
                &&& from < keyframes.len()
                &&& written_type(keyframes[from as int], rank) is Some
                &&& (from < position && forall|k: int|
                    from < k < keyframes.len() ==> written_type(#[trigger] keyframes[k], rank) is None) || (position
                    < from && forall|k: int| 0 <= k < from ==> written_type(#[trigger] keyframes[k], rank) is None)
            },
        },
{
    lemma_last_writer(keyframes, rank, position);
    lemma_first_writer(keyframes, rank, position + 1);
    lemma_ranks_are_written(keyframes, rank);
}

/// What a puppet layer named `layer`, written at `at`, reports when its keyframes write
/// `target`, the target of the conflict's key, with two types: the first keyframe's type and the
/// first other one.
pub fn keyframe_type_mismatch(
    layer: &String,
    target: &AnimatedTarget<Declared>,
    conflict: &KeyframeConflict,
    at: &Option<SourceLocation>,
) -> (error: TransformError)
    ensures
        error.at == *at,
        error.kind matches TransformErrorKind::KeyframeTypeMismatch { layer: name, target: text, first, second }
            && name == *layer && text@ == description(*target) && first == conflict.first && second
            == conflict.second,
{
    TransformErrorKind::KeyframeTypeMismatch {
        layer: layer.clone(),
        target: describe(target),
        first: conflict.first,
        second: conflict.second,
    }.at(duplicate_location(at))
}

/// Whether time rank `rank` is held by two keyframes.
pub open spec fn repeated(ranks: Seq<u64>, rank: u64) -> bool {
    exists|a: int, b: int| 0 <= a < ranks.len() && 0 <= b < ranks.len() && a != b && ranks[a] == rank && ranks[b] == rank
}

/// The keyframes of a puppet layer by the ranks of their times, in the order they were written:
/// two keyframes have one rank exactly when they stand at one time, and an earlier time has a
/// lower rank (the host ranks the times, which are floating point). A layer places two keyframes
/// at one time when a rank repeats; the earliest such time is the one reported, found here as
/// the first keyframe written at it.
pub fn repeated_keyframe(ranks: &[u64]) -> (found: Option<usize>)
    ensures
        match found {
            None => forall|r: u64| !repeated(ranks@, r),
            Some(i) => {
                &&& i < ranks@.len()
                &&& repeated(ranks@, ranks@[i as int])
                &&& forall|k: int| 0 <= k < ranks@.len() && repeated(ranks@, ranks@[k]) ==> ranks@[i as int] <= ranks@[k]
                &&& forall|k: int| 0 <= k < i ==> ranks@[k] != ranks@[i as int]
            },
        },
{
    let mut best: Option<usize> = None;
    let mut i: usize = 0;
    while i < ranks.len()
        invariant
            i <= ranks@.len(),
            match best {
                None => forall|k: int| 0 <= k < i ==> !repeated(ranks@, ranks@[k]),
                Some(b) => {
                    &&& b < i
                    &&& repeated(ranks@, ranks@[b as int])
                    &&& forall|k: int| 0 <= k < i && repeated(ranks@, ranks@[k]) ==> ranks@[b as int] <= ranks@[k]
                    &&& forall|k: int| 0 <= k < b ==> ranks@[k] != ranks@[b as int]
                },
            },
        decreases ranks@.len() - i,
    {
        let mut twice = false;
        let mut j: usize = 0;
        while j < ranks.len()
            invariant
                i < ranks@.len(),
                j <= ranks@.len(),
                twice == exists|m: int| 0 <= m < j && m != i && ranks@[m] == ranks@[i as int],
            decreases ranks@.len() - j,
        {
            if j != i && ranks[j] == ranks[i] {
                twice = true;
            }
            j = j + 1;
        }
        proof {
            if twice {
                let m = choose|m: int| 0 <= m < ranks@.len() && m != i && ranks@[m] == ranks@[i as int];
                assert(repeated(ranks@, ranks@[i as int]));
            } else {
                assert(!repeated(ranks@, ranks@[i as int])) by {
                    if repeated(ranks@, ranks@[i as int]) {
                        let (a, b) = choose|a: int, b: int|
                            0 <= a < ranks@.len() && 0 <= b < ranks@.len() && a != b && ranks@[a] == ranks@[i as int]
                                && ranks@[b] == ranks@[i as int];
                        if a != i {
                            assert(ranks@[a] == ranks@[i as int]);
                        } else {
                            assert(ranks@[b] == ranks@[i as int]);
                        }
                    }
                }
            }
        }
        if twice {
            match best {
                None => {
                    best = Some(i);
                },
                Some(b) => {
                    if ranks[i] < ranks[b] {
                        best = Some(i);
                        proof {
                            assert forall|k: int| 0 <= k < i implies ranks@[k] != ranks@[i as int] by {
                                if ranks@[k] == ranks@[i as int] {
                                    assert(repeated(ranks@, ranks@[k]));
                                }
                            }
                        }
                    }
                },
            }
        }
        i = i + 1;
    }
    proof {
        if best is None {
            assert forall|r: u64| !repeated(ranks@, r) by {
                if repeated(ranks@, r) {
                    let (a, b) = choose|a: int, b: int|
                        0 <= a < ranks@.len() && 0 <= b < ranks@.len() && a != b && ranks@[a] == r && ranks@[b] == r;
                    assert(!repeated(ranks@, ranks@[a]));
                    assert(repeated(ranks@, ranks@[a]));
                }
            }
        }
    }
    best
}

/// What a puppet layer named `layer`, written at `at`, reports when two of its keyframes stand at
/// one time, `time` as the host renders it.
pub fn duplicate_keyframe(layer: &String, time: String, at: &Option<SourceLocation>) -> (error: TransformError)
    ensures
        error == (TransformError {
            at: *at,
            kind: TransformErrorKind::DuplicateKeyframe { layer: *layer, time },
        }),
{
    TransformErrorKind::DuplicateKeyframe { layer: layer.clone(), time }.at(duplicate_location(at))
}

} // verus!
