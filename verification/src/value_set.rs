//! Sets of animated values keyed by what they animate, and the two ways such sets are merged:
//! filling in zeroed values, and filling in defaults.
use vstd::prelude::*;

verus! {

/// How one key stands to another.
#[derive(Debug, Clone, Copy, PartialEq, Eq)]
pub enum KeyOrder {
    Less,
    Equal,
    Greater,
}

/// A key of a `ValueSet`. Keys are kept in the order of their ranks; different keys must have
/// different ranks, so a set holds at most one entry per rank.
pub trait EntryKey: Sized {
    spec fn rank(&self) -> int;

    fn compare_rank(&self, other: &Self) -> (order: KeyOrder)
        ensures
            (order == KeyOrder::Less) == (self.rank() < other.rank()),
            (order == KeyOrder::Equal) == (self.rank() == other.rank()),
            (order == KeyOrder::Greater) == (self.rank() > other.rank()),
    ;

    fn copy_key(&self) -> (copy: Self)
        ensures
            copy == *self,
    ;
}

impl EntryKey for u64 {
    open spec fn rank(&self) -> int {
        *self as int
    }

    fn compare_rank(&self, other: &u64) -> (order: KeyOrder) {
        if *self < *other {
            KeyOrder::Less
        } else if *self == *other {
            KeyOrder::Equal
        } else {
            KeyOrder::Greater
        }
    }

    fn copy_key(&self) -> (copy: u64) {
        *self
    }
}

impl EntryKey for u32 {
    open spec fn rank(&self) -> int {
        *self as int
    }

    fn compare_rank(&self, other: &u32) -> (order: KeyOrder) {
        if *self < *other {
            KeyOrder::Less
        } else if *self == *other {
            KeyOrder::Equal
        } else {
            KeyOrder::Greater
        }
    }

    fn copy_key(&self) -> (copy: u32) {
        *self
    }
}

/// An entry of a `ValueSet`: it knows its key and, when it has one, its zeroed version.
pub trait MaybeZeroableEntry: Sized {
    type Key: EntryKey;

    spec fn spec_key(&self) -> Self::Key;

    spec fn spec_zeroed(&self) -> Option<Self>;

    /// The key of this entry.
    fn key(&self) -> (key: Self::Key)
        ensures
            key == self.spec_key(),
    ;

    /// The zeroed version of this entry, if it is zeroable.
    fn zeroed(&self) -> (zeroed: Option<Self>)
        ensures
            zeroed == self.spec_zeroed(),
    ;

    fn duplicate(&self) -> (copy: Self)
        ensures
            copy == *self,
    ;
}

pub open spec fn rank_of<E: MaybeZeroableEntry>(entry: E) -> int {
    entry.spec_key().rank()
}

/// Entries strictly ordered by the ranks of their keys.
pub open spec fn sorted<E: MaybeZeroableEntry>(entries: Seq<E>) -> bool {
    forall|i: int, j: int| 0 <= i < j < entries.len() ==> rank_of(#[trigger] entries[i]) < rank_of(#[trigger] entries[j])
}

/// Each entry under the rank of its key.
pub open spec fn contents_of<E: MaybeZeroableEntry>(entries: Seq<E>) -> Map<int, E> {
    Map::new(
        |rank: int| exists|i: int| 0 <= i < entries.len() && rank_of(entries[i]) == rank,
        |rank: int| entries[choose|i: int| 0 <= i < entries.len() && rank_of(entries[i]) == rank],
    )
}

/// Every entry of every set, set by set, each set in key order.
pub open spec fn all_entries<E: MaybeZeroableEntry>(sets: Seq<ValueSet<E>>) -> Seq<E>
    decreases sets.len(),
{
    if sets.len() == 0 {
        seq![]
    } else {
        all_entries(sets.drop_last()) + sets.last().ordered()
    }
}

/// The zeroed versions of the zeroable entries among `entries`, in order.
pub open spec fn zeroed_list<E: MaybeZeroableEntry>(entries: Seq<E>) -> Seq<E>
    decreases entries.len(),
{
    if entries.len() == 0 {
        seq![]
    } else {
        zeroed_list(entries.drop_last()) + match entries.last().spec_zeroed() {
            Some(zeroed) => seq![zeroed],
            None => seq![],
        }
    }
}

/// The keys of the entries that cannot be zeroed and are not in `present`, in order.
pub open spec fn missing_keys<E: MaybeZeroableEntry>(present: Map<int, E>, entries: Seq<E>) -> Seq<E::Key>
    decreases entries.len(),
{
    if entries.len() == 0 {
        seq![]
    } else {
        missing_keys(present, entries.drop_last()) + if entries.last().spec_zeroed() is None
            && !present.contains_key(rank_of(entries.last())) {
            seq![entries.last().spec_key()]
        } else {
            seq![]
        }
    }
}

/// `present` with each of `additions` put in, in order, where its key is still free.
pub open spec fn fill<E: MaybeZeroableEntry>(present: Map<int, E>, additions: Seq<E>) -> Map<int, E>
    decreases additions.len(),
{
    if additions.len() == 0 {
        present
    } else {
        let before = fill(present, additions.drop_last());
        if before.contains_key(rank_of(additions.last())) {
            before
        } else {
            before.insert(rank_of(additions.last()), additions.last())
        }
    }
}

/// The keys of `entries` that `defaults` has no entry for, in order.
pub open spec fn orphan_keys<E: MaybeZeroableEntry>(entries: Seq<E>, defaults: Map<int, E>) -> Seq<E::Key>
    decreases entries.len(),
{
    if entries.len() == 0 {
        seq![]
    } else {
        orphan_keys(entries.drop_last(), defaults) + if defaults.contains_key(rank_of(entries.last())) {
            seq![]
        } else {
            seq![entries.last().spec_key()]
        }
    }
}

pub proof fn lemma_contents_at<E: MaybeZeroableEntry>(entries: Seq<E>, i: int)
    requires
        sorted(entries),
        0 <= i < entries.len(),
    ensures
        contents_of(entries).contains_key(rank_of(entries[i])),
        contents_of(entries)[rank_of(entries[i])] == entries[i],
{
    let rank = rank_of(entries[i]);
    let chosen = choose|k: int| 0 <= k < entries.len() && rank_of(entries[k]) == rank;
    assert(chosen == i) by {
        if chosen < i {
            assert(rank_of(entries[chosen]) < rank_of(entries[i]));
        } else if chosen > i {
            assert(rank_of(entries[i]) < rank_of(entries[chosen]));
        }
    }
}

/// Putting an entry in its place by rank keeps the order and adds it to the contents.
pub proof fn lemma_contents_insert<E: MaybeZeroableEntry>(entries: Seq<E>, at: int, entry: E)
    requires
        sorted(entries),
        0 <= at <= entries.len(),
        forall|i: int| 0 <= i < at ==> rank_of(#[trigger] entries[i]) < rank_of(entry),
        forall|i: int| at <= i < entries.len() ==> rank_of(entry) < rank_of(#[trigger] entries[i]),
    ensures
        sorted(entries.insert(at, entry)),
        contents_of(entries.insert(at, entry)) == contents_of(entries).insert(rank_of(entry), entry),
        !contents_of(entries).contains_key(rank_of(entry)),
{
    let after = entries.insert(at, entry);
    assert forall|i: int, j: int| 0 <= i < j < after.len() implies rank_of(#[trigger] after[i]) < rank_of(
        #[trigger] after[j],
    ) by {
        if i < at && j > at {
            assert(after[j] == entries[j - 1]);
        } else if i > at {
            assert(after[i] == entries[i - 1]);
            assert(after[j] == entries[j - 1]);
        }
    }
    let expected = contents_of(entries).insert(rank_of(entry), entry);
    assert forall|rank: int| #[trigger] contents_of(after).contains_key(rank) == expected.contains_key(rank) by {
        if exists|i: int| 0 <= i < after.len() && rank_of(after[i]) == rank {
            let i = choose|i: int| 0 <= i < after.len() && rank_of(after[i]) == rank;
            if i < at {
                assert(after[i] == entries[i]);
            } else if i > at {
                assert(after[i] == entries[i - 1]);
            }
        }
        if exists|i: int| 0 <= i < entries.len() && rank_of(entries[i]) == rank {
            let i = choose|i: int| 0 <= i < entries.len() && rank_of(entries[i]) == rank;
            if i < at {
                assert(after[i] == entries[i]);
            } else {
                assert(after[i + 1] == entries[i]);
            }
        }
        if rank == rank_of(entry) {
            assert(after[at] == entry);
        }
    }
    assert forall|rank: int| #[trigger] contents_of(after).contains_key(rank) implies contents_of(after)[rank]
        == expected[rank] by {
        let i = choose|i: int| 0 <= i < after.len() && rank_of(after[i]) == rank;
        lemma_contents_at(after, i);
        if i < at {
            assert(after[i] == entries[i]);
            lemma_contents_at(entries, i);
        } else if i > at {
            assert(after[i] == entries[i - 1]);
            lemma_contents_at(entries, i - 1);
        }
    }
    assert(contents_of(after) =~= expected);
    if contents_of(entries).contains_key(rank_of(entry)) {
        let i = choose|i: int| 0 <= i < entries.len() && rank_of(entries[i]) == rank_of(entry);
        assert(false);
    }
}

/// Replacing an entry by one of the same rank keeps the order and replaces it in the contents.
pub proof fn lemma_contents_update<E: MaybeZeroableEntry>(entries: Seq<E>, at: int, entry: E)
    requires
        sorted(entries),
        0 <= at < entries.len(),
        rank_of(entries[at]) == rank_of(entry),
    ensures
        sorted(entries.update(at, entry)),
        contents_of(entries.update(at, entry)) == contents_of(entries).insert(rank_of(entry), entry),
{
    let after = entries.update(at, entry);
    assert forall|i: int, j: int| 0 <= i < j < after.len() implies rank_of(#[trigger] after[i]) < rank_of(
        #[trigger] after[j],
    ) by {
        assert(rank_of(entries[i]) < rank_of(entries[j]));
    }
    let expected = contents_of(entries).insert(rank_of(entry), entry);
    assert forall|rank: int| #[trigger] contents_of(after).contains_key(rank) == expected.contains_key(rank) by {
        if exists|i: int| 0 <= i < after.len() && rank_of(after[i]) == rank {
            let i = choose|i: int| 0 <= i < after.len() && rank_of(after[i]) == rank;
            if i != at {
                assert(after[i] == entries[i]);
            }
        }
        if exists|i: int| 0 <= i < entries.len() && rank_of(entries[i]) == rank {
            let i = choose|i: int| 0 <= i < entries.len() && rank_of(entries[i]) == rank;
            if i != at {
                assert(after[i] == entries[i]);
            }
        }
        if rank == rank_of(entry) {
            assert(after[at] == entry);
        }
    }
    assert forall|rank: int| #[trigger] contents_of(after).contains_key(rank) implies contents_of(after)[rank]
        == expected[rank] by {
        let i = choose|i: int| 0 <= i < after.len() && rank_of(after[i]) == rank;
        lemma_contents_at(after, i);
        if i != at {
            assert(after[i] == entries[i]);
            lemma_contents_at(entries, i);
        }
    }
    assert(contents_of(after) =~= expected);
}

/// Where entries are in key order, appending one whose key comes after all of them adds it.
pub proof fn lemma_contents_push<E: MaybeZeroableEntry>(entries: Seq<E>, entry: E)
    requires
        sorted(entries),
        forall|i: int| 0 <= i < entries.len() ==> rank_of(#[trigger] entries[i]) < rank_of(entry),
    ensures
        sorted(entries.push(entry)),
        contents_of(entries.push(entry)) == contents_of(entries).insert(rank_of(entry), entry),
{
    assert(entries.insert(entries.len() as int, entry) =~= entries.push(entry));
    lemma_contents_insert(entries, entries.len() as int, entry);
}

/// A set of entries, at most one per key, kept in key order.
#[derive(Debug, PartialEq, Eq)]
pub struct ValueSet<E: MaybeZeroableEntry> {
    entries: Vec<E>,
}

impl<E: MaybeZeroableEntry> ValueSet<E> {
    #[verifier::type_invariant]
    spec fn in_key_order(self) -> bool {
        sorted(self.entries@)
    }

    /// The entries in key order.
    pub closed spec fn ordered(&self) -> Seq<E> {
        self.entries@
    }

    /// Each entry under the rank of its key.
    pub open spec fn contents(&self) -> Map<int, E> {
        contents_of(self.ordered())
    }

    pub fn new() -> (set: ValueSet<E>)
        ensures
            set.ordered() == Seq::<E>::empty(),
            set.contents() == Map::<int, E>::empty(),
    {
        let set = ValueSet { entries: Vec::new() };
        assert(set.contents() =~= Map::<int, E>::empty());
        set
    }

    /// A set of the given entries; of two entries with the same key the later one is kept.
    pub fn from_entries(entries: Vec<E>) -> (set: ValueSet<E>)
        ensures
            set.contents() == fill_replacing(Map::<int, E>::empty(), entries@),
    {
        let mut set = ValueSet::new();
        let mut rest = entries;
        let ghost all = rest@;
        let total = rest.len();
        let mut i: usize = 0;
        assert(all.take(0) =~= Seq::<E>::empty());
        assert(all.skip(0) =~= all);
        while rest.len() > 0
            invariant
                i <= total == all.len(),
                rest@ == all.skip(i as int),
                set.contents() == fill_replacing(Map::<int, E>::empty(), all.take(i as int)),
            decreases rest@.len(),
        {
            let entry = rest.remove(0);
            assert(entry == all[i as int]);
            assert(all.take(i + 1).drop_last() =~= all.take(i as int));
            set.insert(entry);
            i = i + 1;
            assert(rest@ =~= all.skip(i as int));
        }
        assert(all.take(all.len() as int) =~= all);
        set
    }

    /// Where `key` stands among the entries: the index of its entry, or where one would go.
    fn locate(entries: &Vec<E>, key: &E::Key) -> (found: Result<usize, usize>)
        requires
            sorted(entries@),
        ensures
            match found {
                Ok(i) => i < entries@.len() && rank_of(entries@[i as int]) == key.rank(),
                Err(at) => at <= entries@.len() && (forall|i: int|
                    0 <= i < at ==> rank_of(#[trigger] entries@[i]) < key.rank()) && (forall|i: int|
                    at <= i < entries@.len() ==> key.rank() < rank_of(#[trigger] entries@[i])),
            },
    {
        let mut i: usize = 0;
        while i < entries.len()
            invariant
                i <= entries@.len(),
                sorted(entries@),
                forall|k: int| 0 <= k < i ==> rank_of(#[trigger] entries@[k]) < key.rank(),
            decreases entries@.len() - i,
        {
            let current = entries[i].key();
            match current.compare_rank(key) {
                KeyOrder::Less => {},
                KeyOrder::Equal => {
                    return Ok(i);
                },
                KeyOrder::Greater => {
                    assert forall|k: int| i <= k < entries@.len() implies key.rank() < rank_of(
                        #[trigger] entries@[k],
                    ) by {
                        if k > i {
                            assert(rank_of(entries@[i as int]) < rank_of(entries@[k]));
                        }
                    }
                    return Err(i);
                },
            }
            i = i + 1;
        }
        Err(i)
    }

    /// Whether some entry has `key`.
    pub fn contains_key(&self, key: &E::Key) -> (found: bool)
        ensures
            found == self.contents().contains_key(key.rank()),
    {
        proof {
            use_type_invariant(self);
        }
        match Self::locate(&self.entries, key) {
            Ok(i) => {
                proof {
                    lemma_contents_at(self.entries@, i as int);
                }
                true
            },
            Err(at) => {
                proof {
                    if self.contents().contains_key(key.rank()) {
                        let i = choose|i: int|
                            0 <= i < self.entries@.len() && rank_of(self.entries@[i]) == key.rank();
                        assert(false);
                    }
                }
                false
            },
        }
    }

    /// The entry with `key`, if there is one.
    pub fn get(&self, key: &E::Key) -> (found: Option<&E>)
        ensures
            match found {
                Some(entry) => self.contents().contains_key(key.rank()) && *entry == self.contents()[key.rank()],
                None => !self.contents().contains_key(key.rank()),
            },
    {
        proof {
            use_type_invariant(self);
        }
        match Self::locate(&self.entries, key) {
            Ok(i) => {
                proof {
                    lemma_contents_at(self.entries@, i as int);
                }
                Some(&self.entries[i])
            },
            Err(_) => {
                proof {
                    if self.contents().contains_key(key.rank()) {
                        let i = choose|i: int|
                            0 <= i < self.entries@.len() && rank_of(self.entries@[i]) == key.rank();
                        assert(false);
                    }
                }
                None
            },
        }
    }

    /// Puts `entry` in the set and returns the entry it replaced, if its key was taken.
    pub fn insert(&mut self, entry: E) -> (replaced: Option<E>)
        ensures
            final(self).contents() == old(self).contents().insert(rank_of(entry), entry),
            replaced == if old(self).contents().contains_key(rank_of(entry)) {
                Some(old(self).contents()[rank_of(entry)])
            } else {
                None
            },
    {
        proof {
            use_type_invariant(&*self);
        }
        let key = entry.key();
        let mut entries: Vec<E> = Vec::new();
        std::mem::swap(&mut entries, &mut self.entries);
        let ghost before = entries@;
        match Self::locate(&entries, &key) {
            Ok(i) => {
                proof {
                    lemma_contents_at(before, i as int);
                    lemma_contents_update(before, i as int, entry);
                }
                let previous = entries.remove(i);
                entries.insert(i, entry);
                assert(entries@ =~= before.update(i as int, entry));
                self.entries = entries;
                Some(previous)
            },
            Err(at) => {
                proof {
                    lemma_contents_insert(before, at as int, entry);
                }
                entries.insert(at, entry);
                self.entries = entries;
                None
            },
        }
    }

    /// The entries in key order.
    pub fn entries(&self) -> (entries: &[E])
        ensures
            entries@ == self.ordered(),
            sorted(entries@),
    {
        proof {
            use_type_invariant(self);
        }
        self.entries.as_slice()
    }

    pub fn len(&self) -> (len: usize)
        ensures
            len == self.ordered().len(),
    {
        self.entries.len()
    }

    /// Unions the entries of `others` into this set, using zeroed values for zeroable entries.
    /// Existing entries are never replaced. If an entry that cannot be zeroed is found only in
    /// `others`, its key is reported and the set is left as it was.
    pub fn union_fill_as_zero(&mut self, others: &[ValueSet<E>]) -> (result: Result<(), Vec<E::Key>>)
        ensures
            ({
                let items = all_entries(others@);
                let missing = missing_keys(old(self).contents(), items);
                if missing.len() > 0 {
                    result matches Err(keys) && keys@ == missing && final(self).contents() == old(
                        self,
                    ).contents()
                } else {
                    result is Ok && final(self).contents() == fill(old(self).contents(), zeroed_list(items))
                }
            }),
    {
        let ghost start = self.contents();
        let mut non_zeroables: Vec<E::Key> = Vec::new();
        let mut zeroed_entries: Vec<E> = Vec::new();
        let mut s: usize = 0;
        assert(others@.take(0) =~= Seq::<ValueSet<E>>::empty());
        while s < others.len()
            invariant
                s <= others@.len(),
                self.contents() == start,
                zeroed_entries@ == zeroed_list(all_entries(others@.take(s as int))),
                non_zeroables@ == missing_keys(start, all_entries(others@.take(s as int))),
            decreases others@.len() - s,
        {
            let set = &others[s];
            let ghost done = all_entries(others@.take(s as int));
            let mut j: usize = 0;
            assert(set.ordered().take(0) =~= Seq::<E>::empty());
            assert(done + set.ordered().take(0) =~= done);
            while j < set.entries.len()
                invariant
                    j <= set.ordered().len(),
                    self.contents() == start,
                    zeroed_entries@ == zeroed_list(done + set.ordered().take(j as int)),
                    non_zeroables@ == missing_keys(start, done + set.ordered().take(j as int)),
                decreases set.ordered().len() - j,
            {
                let entry = &set.entries[j];
                let ghost seen = done + set.ordered().take(j as int);
                let ghost next = done + set.ordered().take(j + 1);
                assert(next.drop_last() =~= seen);
                assert(next.last() == *entry);
                match entry.zeroed() {
                    Some(zeroed) => {
                        zeroed_entries.push(zeroed);
                    },
                    None => {
                        let key = entry.key();
                        if !self.contains_key(&key) {
                            non_zeroables.push(key);
                        }
                    },
                }
                j = j + 1;
                assert(zeroed_entries@ =~= zeroed_list(next));
                assert(non_zeroables@ =~= missing_keys(start, next));
            }
            assert(set.ordered().take(j as int) =~= set.ordered());
            assert(others@.take(s + 1).drop_last() =~= others@.take(s as int));
            s = s + 1;
        }
        assert(others@.take(s as int) =~= others@);
        if non_zeroables.len() > 0 {
            return Err(non_zeroables);
        }
        let ghost additions = zeroed_entries@;
        let mut k: usize = 0;
        assert(additions.take(0) =~= Seq::<E>::empty());
        while k < zeroed_entries.len()
            invariant
                k <= additions.len(),
                zeroed_entries@ == additions,
                self.contents() == fill(start, additions.take(k as int)),
            decreases additions.len() - k,
        {
            let addition = &zeroed_entries[k];
            assert(additions.take(k + 1).drop_last() =~= additions.take(k as int));
            let key = addition.key();
            if !self.contains_key(&key) {
                self.insert(addition.duplicate());
            }
            k = k + 1;
        }
        assert(additions.take(k as int) =~= additions);
        Ok(())
    }

    /// Unions the entries of `defaults` into this set. Existing entries are kept. If this set has
    /// an entry whose key `defaults` lacks, those keys are reported and the set is left as it was.
    pub fn union_from_defaults(&mut self, defaults: &ValueSet<E>) -> (result: Result<(), Vec<E::Key>>)
        ensures
            ({
                let orphans = orphan_keys(old(self).ordered(), defaults.contents());
                if orphans.len() > 0 {
                    result matches Err(keys) && keys@ == orphans && final(self).contents() == old(
                        self,
                    ).contents()
                } else {
                    result is Ok && final(self).contents() == defaults.contents().union_prefer_right(
                        old(self).contents(),
                    )
                }
            }),
    {
        proof {
            use_type_invariant(&*self);
            use_type_invariant(defaults);
        }
        let ghost start = self.contents();
        let ghost own = self.ordered();
        let mut orphans: Vec<E::Key> = Vec::new();
        let mut i: usize = 0;
        assert(own.take(0) =~= Seq::<E>::empty());
        while i < self.entries.len()
            invariant
                i <= own.len(),
                self.ordered() == own,
                orphans@ == orphan_keys(own.take(i as int), defaults.contents()),
            decreases own.len() - i,
        {
            assert(own.take(i + 1).drop_last() =~= own.take(i as int));
            let key = self.entries[i].key();
            if !defaults.contains_key(&key) {
                orphans.push(key);
            }
            i = i + 1;
        }
        assert(own.take(i as int) =~= own);
        if orphans.len() > 0 {
            return Err(orphans);
        }
        proof {
            lemma_no_orphans(own, defaults.contents());
        }
        let ghost theirs = defaults.ordered();
        let mut d: usize = 0;
        assert(theirs.take(0) =~= Seq::<E>::empty());
        assert(contents_of(theirs.take(0)) =~= Map::<int, E>::empty());
        assert(Map::<int, E>::empty().union_prefer_right(start) =~= start);
        while d < defaults.entries.len()
            invariant
                d <= theirs.len(),
                defaults.ordered() == theirs,
                sorted(theirs),
                forall|r: int| start.contains_key(r) ==> defaults.contents().contains_key(r),
                self.contents() == contents_of(theirs.take(d as int)).union_prefer_right(start),
            decreases theirs.len() - d,
        {
            let entry = &defaults.entries[d];
            let ghost prefix = theirs.take(d as int);
            proof {
                assert(theirs.take(d + 1) =~= prefix.push(*entry));
                assert(sorted(prefix));
                lemma_contents_push(prefix, *entry);
            }
            let key = entry.key();
            if !self.contains_key(&key) {
                self.insert(entry.duplicate());
                assert(self.contents() =~= contents_of(theirs.take(d + 1)).union_prefer_right(start));
            } else {
                assert(!contents_of(prefix).contains_key(rank_of(*entry)));
                assert(start.contains_key(rank_of(*entry)));
                assert(self.contents() =~= contents_of(theirs.take(d + 1)).union_prefer_right(start));
            }
            d = d + 1;
        }
        assert(theirs.take(d as int) =~= theirs);
        Ok(())
    }
}

/// `present` with each of `additions` put in, in order, replacing what had the same key.
pub open spec fn fill_replacing<E: MaybeZeroableEntry>(present: Map<int, E>, additions: Seq<E>) -> Map<int, E>
    decreases additions.len(),
{
    if additions.len() == 0 {
        present
    } else {
        fill_replacing(present, additions.drop_last()).insert(rank_of(additions.last()), additions.last())
    }
}

/// When no key of `entries` is missing from `defaults`, every key of `entries` is in `defaults`.
pub proof fn lemma_no_orphans<E: MaybeZeroableEntry>(entries: Seq<E>, defaults: Map<int, E>)
    requires
        orphan_keys(entries, defaults).len() == 0,
    ensures
        forall|r: int| contents_of(entries).contains_key(r) ==> defaults.contains_key(r),
    decreases entries.len(),
{
    if entries.len() > 0 {
        lemma_no_orphans(entries.drop_last(), defaults);
        assert forall|r: int| contents_of(entries).contains_key(r) implies defaults.contains_key(r) by {
            let i = choose|i: int| 0 <= i < entries.len() && rank_of(entries[i]) == r;
            if i < entries.len() - 1 {
                assert(entries.drop_last()[i] == entries[i]);
            }
        }
    }
}

/// Filling never replaces an entry that was already there, and never drops one.
pub proof fn law_fill_keeps_existing<E: MaybeZeroableEntry>(present: Map<int, E>, additions: Seq<E>)
    ensures
        forall|r: int| #[trigger] present.contains_key(r) ==> fill(present, additions).contains_key(r)
            && fill(present, additions)[r] == present[r],
    decreases additions.len(),
{
    if additions.len() > 0 {
        law_fill_keeps_existing(present, additions.drop_last());
    }
}

/// After a merge that fills in zeroed values succeeds, every key of the merged sets has an entry,
/// provided each zeroed entry keeps the key of the entry it was made from.
pub proof fn law_fill_as_zero_covers_every_key<E: MaybeZeroableEntry>(present: Map<int, E>, items: Seq<E>)
    requires
        missing_keys(present, items).len() == 0,
        forall|i: int|
            0 <= i < items.len() ==> ((#[trigger] items[i]).spec_zeroed() matches Some(zeroed) ==> rank_of(zeroed)
                == rank_of(items[i])),
    ensures
        forall|i: int|
            0 <= i < items.len() ==> fill(present, zeroed_list(items)).contains_key(rank_of(#[trigger] items[i])),
    decreases items.len(),
{
    if items.len() > 0 {
        let front = items.drop_last();
        let last = items.last();
        assert(missing_keys(present, front).len() == 0);
        law_fill_as_zero_covers_every_key(present, front);
        let zeroed_front = zeroed_list(front);
        let tail = match last.spec_zeroed() {
            Some(zeroed) => seq![zeroed],
            None => seq![],
        };
        assert(zeroed_list(items) == zeroed_front + tail);
        law_fill_keeps_existing(present, zeroed_front);
        lemma_fill_append(present, zeroed_front, tail);
        let after_front = fill(present, zeroed_front);
        law_fill_keeps_existing(after_front, tail);
        assert forall|i: int| 0 <= i < items.len() implies fill(present, zeroed_list(items)).contains_key(
            rank_of(#[trigger] items[i]),
        ) by {
            if i < items.len() - 1 {
                assert(front[i] == items[i]);
                assert(after_front.contains_key(rank_of(front[i])));
            } else {
                match last.spec_zeroed() {
                    Some(zeroed) => {
                        assert(tail.drop_last() =~= Seq::<E>::empty());
                        assert(tail.last() == zeroed);
                    },
                    None => {
                        assert(present.contains_key(rank_of(last)));
                    },
                }
            }
        }
    }
}

/// Filling with two lists one after the other is filling with both.
pub proof fn lemma_fill_append<E: MaybeZeroableEntry>(present: Map<int, E>, first: Seq<E>, second: Seq<E>)
    ensures
        fill(present, first + second) == fill(fill(present, first), second),
    decreases second.len(),
{
    if second.len() == 0 {
        assert(first + second =~= first);
    } else {
        assert((first + second).drop_last() =~= first + second.drop_last());
        lemma_fill_append(present, first, second.drop_last());
    }
}

/// After a merge with defaults succeeds, the set has an entry for exactly the keys of the defaults,
/// and keeps its own entry wherever it had one.
pub proof fn law_defaults_merge_has_the_keys_of_the_defaults<E: MaybeZeroableEntry>(
    own: Seq<E>,
    defaults: Map<int, E>,
)
    requires
        orphan_keys(own, defaults).len() == 0,
    ensures
        defaults.union_prefer_right(contents_of(own)).dom() == defaults.dom(),
        forall|r: int| #[trigger] contents_of(own).contains_key(r) ==> defaults.union_prefer_right(
            contents_of(own),
        )[r] == contents_of(own)[r],
{
    lemma_no_orphans(own, defaults);
    assert(defaults.union_prefer_right(contents_of(own)).dom() =~= defaults.dom());
}

} // verus!
