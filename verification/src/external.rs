//! References whose existence only the client can check: interned into deduplicated tables that
//! remember every place in the script that wrote them.
use vstd::prelude::*;
use vstd::std_specs::cmp::PartialEqSpecImpl;

use crate::diagnostics::{lemma_pair_round_trip, pair_encoding, pair_parse};
use crate::raw_pass::{first_repeat, lemma_first_repeat_of_prefix, lemma_no_repeat_distinct};
use crate::resolution::{SourceLocation, Unresolved};
use crate::wire::{parse_u32, Decode, DecodeError, Encode, EncodeError, Reader, WireFormat, Writer};

verus! {

/// A kind of reference that only the client can check, and how its values are compared.
pub trait ExternKind: Sized {
    type Value: DeepView + core::fmt::Debug;

    /// Whether two values are the same reference.
    fn same_value(first: &Self::Value, second: &Self::Value) -> (same: bool)
        ensures
            same == (first.deep_view() == second.deep_view()),
    ;

    /// How a value is shown in an error that names it.
    spec fn key_text(value: <Self::Value as DeepView>::V) -> Seq<char>;

    /// `value` as an error names it.
    fn key(value: &Self::Value) -> (key: String)
        ensures
            key@ == Self::key_text(value.deep_view()),
    ;
}

/// The text `format!("{:?}", text)` gives for a string.
pub uninterp spec fn debug_quoted(text: Seq<char>) -> Seq<char>;

/// Shows `text` as `Debug` shows a string slice, through `format!`. The claim is only that the
/// result is `debug_quoted` of the text: which characters are escaped, and how, is not stated.
#[verifier::external_body]
pub(crate) fn quote_debug(text: &str) -> (quoted: String)
    ensures
        quoted@ == debug_quoted(text@),
{
    format!("{text:?}")
}

/// Index of an entry in an `ExternTable` of kind `K`.
#[derive(Debug)]
pub struct Extern<K> {
    index: u32,
    kind: core::marker::PhantomData<K>,
}

impl<K> Clone for Extern<K> {
    fn clone(&self) -> (copy: Self)
        ensures
            copy.spec_index() == self.spec_index(),
    {
        Extern { index: self.index, kind: core::marker::PhantomData }
    }
}

impl<K> Copy for Extern<K> {
}

impl<K> PartialEq for Extern<K> {
    fn eq(&self, other: &Self) -> (equal: bool) {
        self.index == other.index
    }
}

impl<K> PartialEqSpecImpl for Extern<K> {
    open spec fn obeys_eq_spec() -> bool {
        true
    }

    open spec fn eq_spec(&self, other: &Self) -> bool {
        self.spec_index() == other.spec_index()
    }
}

impl<K> Eq for Extern<K> {
}

impl<K> Extern<K> {
    pub closed spec fn spec_index(&self) -> u32 {
        self.index
    }

    pub fn index(&self) -> (index: u32)
        ensures
            index == self.spec_index(),
    {
        self.index
    }

    /// The reference to the entry at `index`, as read back from a serialised table.
    pub fn from_index(index: u32) -> (reference: Extern<K>)
        ensures
            reference.spec_index() == index,
    {
        Extern { index, kind: core::marker::PhantomData }
    }
}

/// An entry of an `ExternTable`: the value the client should look up, and every place in the
/// script that referenced it.
#[derive(Debug)]
pub struct ExternEntry<K: ExternKind> {
    pub value: K::Value,
    pub referenced_at: Vec<SourceLocation>,
}

impl<K: ExternKind> DeepView for ExternEntry<K> {
    type V = (<K::Value as DeepView>::V, Seq<(Seq<char>, u32)>);

    open spec fn deep_view(&self) -> Self::V {
        (self.value.deep_view(), self.referenced_at.deep_view())
    }
}

/// Where `at`, if given, is recorded among `locations`: appended unless it is already there.
pub open spec fn record_location(locations: Seq<(Seq<char>, u32)>, at: Option<(Seq<char>, u32)>) -> Seq<
    (Seq<char>, u32),
> {
    match at {
        Some(location) => if locations.contains(location) {
            locations
        } else {
            locations.push(location)
        },
        None => locations,
    }
}

/// The index of `value` in `table`, if it is there.
pub open spec fn index_of<V>(table: Seq<(V, Seq<(Seq<char>, u32)>)>, value: V) -> Option<int> {
    if exists|i: int| 0 <= i < table.len() && table[i].0 == value {
        Some(choose|i: int| 0 <= i < table.len() && table[i].0 == value)
    } else {
        None
    }
}

/// The table after interning `value` written at `at`, and the index `value` has in it.
pub open spec fn interned<V>(table: Seq<(V, Seq<(Seq<char>, u32)>)>, value: V, at: Option<(Seq<char>, u32)>) -> (
    Seq<(V, Seq<(Seq<char>, u32)>)>,
    int,
) {
    match index_of(table, value) {
        Some(i) => (table.update(i, (value, record_location(table[i].1, at))), i),
        None => (table.push((value, record_location(seq![], at))), table.len() as int),
    }
}

/// The values of a table's entries, in order.
pub open spec fn values_of<V>(table: Seq<(V, Seq<(Seq<char>, u32)>)>) -> Seq<V> {
    table.map_values(|entry: (V, Seq<(Seq<char>, u32)>)| entry.0)
}

/// No value appears twice.
pub open spec fn values_distinct<V>(table: Seq<(V, Seq<(Seq<char>, u32)>)>) -> bool {
    forall|i: int, j: int| 0 <= i < j < table.len() ==> #[trigger] table[i].0 != #[trigger] table[j].0
}

/// No value appears twice, and no entry lists a location twice.
pub open spec fn table_wf<V>(table: Seq<(V, Seq<(Seq<char>, u32)>)>) -> bool {
    &&& values_distinct(table)
    &&& forall|i: int| 0 <= i < table.len() ==> (#[trigger] table[i].1).no_duplicates()
}

/// Deduplicated table of external references of one kind.
#[derive(Debug)]
pub struct ExternTable<K: ExternKind> {
    entries: Vec<ExternEntry<K>>,
}

impl<K: ExternKind> View for ExternTable<K> {
    type V = Seq<(<K::Value as DeepView>::V, Seq<(Seq<char>, u32)>)>;

    closed spec fn view(&self) -> Self::V {
        self.entries.deep_view()
    }
}

impl<K: ExternKind> ExternTable<K> {
    #[verifier::type_invariant]
    spec fn well_formed(self) -> bool {
        values_distinct(self.entries.deep_view())
    }

    pub fn new() -> (table: ExternTable<K>)
        ensures
            table@ == Seq::<(<K::Value as DeepView>::V, Seq<(Seq<char>, u32)>)>::empty(),
            table_wf(table@),
    {
        let table = ExternTable { entries: Vec::new() };
        assert(table@ =~= Seq::<(<K::Value as DeepView>::V, Seq<(Seq<char>, u32)>)>::empty());
        table
    }

    fn position(&self, value: &K::Value) -> (found: Option<usize>)
        ensures
            match index_of(self@, value.deep_view()) {
                Some(i) => found == Some(i as usize),
                None => found is None,
            },
    {
        proof {
            use_type_invariant(self);
        }
        let mut i: usize = 0;
        while i < self.entries.len()
            invariant
                i <= self.entries@.len(),
                self@ == self.entries.deep_view(),
                values_distinct(self@),
                forall|k: int| 0 <= k < i ==> self@[k].0 != value.deep_view(),
            decreases self.entries@.len() - i,
        {
            assert(self@[i as int] == self.entries@[i as int].deep_view());
            if K::same_value(&self.entries[i].value, value) {
                proof {
                    let chosen = choose|k: int| 0 <= k < self@.len() && self@[k].0 == value.deep_view();
                    assert(chosen == i) by {
                        if chosen > i {
                            assert(self@[i as int].0 != self@[chosen].0);
                        }
                    }
                }
                return Some(i);
            }
            i = i + 1;
        }
        None
    }

    fn has_location(locations: &Vec<SourceLocation>, at: &SourceLocation) -> (found: bool)
        ensures
            found == locations.deep_view().contains(at.deep_view()),
    {
        let mut i: usize = 0;
        while i < locations.len()
            invariant
                i <= locations@.len(),
                forall|k: int| 0 <= k < i ==> locations.deep_view()[k] != at.deep_view(),
            decreases locations@.len() - i,
        {
            if locations[i].same_as(at) {
                assert(locations.deep_view()[i as int] == at.deep_view());
                return true;
            }
            i = i + 1;
        }
        false
    }

    /// Interns `unresolved` and returns the reference to its entry. A value already in the table
    /// keeps its entry and index; its location is added to the entry unless it is already listed.
    pub fn intern(&mut self, unresolved: Unresolved<K::Value>) -> (reference: Extern<K>)
        requires
            old(self)@.len() < u32::MAX,
        ensures
            values_distinct(final(self)@),
            table_wf(old(self)@) ==> table_wf(final(self)@),
            (final(self)@, reference.spec_index() as int) == interned(
                old(self)@,
                unresolved.value.deep_view(),
                unresolved.at.deep_view(),
            ),
    {
        proof {
            use_type_invariant(&*self);
        }
        let ghost table = self@;
        let ghost value = unresolved.value.deep_view();
        let ghost at = unresolved.at.deep_view();
        proof {
            if table_wf(table) {
                law_intern_keeps_table_wf(table, value, at);
            }
        }
        let Unresolved { value: written, at: location } = unresolved;
        let found = self.position(&written);
        let mut entries: Vec<ExternEntry<K>> = Vec::new();
        std::mem::swap(&mut entries, &mut self.entries);
        assert(entries.deep_view() == table);
        match found {
            Some(index) => {
                let ghost existing = table[index as int];
                let mut entry = entries.remove(index);
                assert(entry.deep_view() == existing);
                match location {
                    Some(at) => {
                        if !Self::has_location(&entry.referenced_at, &at) {
                            let ghost before = entry.referenced_at.deep_view();
                            entry.referenced_at.push(at);
                            assert(entry.referenced_at.deep_view() =~= before.push(at.deep_view()));
                        }
                    },
                    None => {},
                }
                assert(entry.deep_view() == (value, record_location(existing.1, at)));
                assert(entries.deep_view() =~= table.remove(index as int));
                proof {
                    assert forall|i: int, j: int|
                        0 <= i < j < table.update(index as int, entry.deep_view()).len() implies #[trigger] table.update(
                        index as int,
                        entry.deep_view(),
                    )[i].0 != #[trigger] table.update(index as int, entry.deep_view())[j].0 by {
                        assert(table[i].0 != table[j].0);
                    }
                }
                entries.insert(index, entry);
                assert(entries.deep_view() =~= table.update(index as int, entry.deep_view()));
                self.entries = entries;
                Extern { index: index as u32, kind: core::marker::PhantomData }
            },
            None => {
                let index = entries.len();
                let mut referenced_at: Vec<SourceLocation> = Vec::new();
                match location {
                    Some(at) => {
                        referenced_at.push(at);
                    },
                    None => {},
                }
                let entry = ExternEntry { value: written, referenced_at };
                assert(entry.referenced_at.deep_view() =~= record_location(seq![], at));
                proof {
                    let grown = table.push(entry.deep_view());
                    assert forall|i: int, j: int| 0 <= i < j < grown.len() implies #[trigger] grown[i].0
                        != #[trigger] grown[j].0 by {
                        if j < table.len() {
                            assert(table[i].0 != table[j].0);
                        } else {
                            assert(table[i].0 != value);
                        }
                    }
                }
                entries.push(entry);
                assert(entries.deep_view() =~= table.push(entry.deep_view()));
                self.entries = entries;
                Extern { index: index as u32, kind: core::marker::PhantomData }
            },
        }
    }

    /// The table of `entries`, in order, when no value repeats an earlier one; otherwise the first
    /// value that does.
    pub fn from_entries(entries: Vec<ExternEntry<K>>) -> (result: Result<ExternTable<K>, K::Value>)
        ensures
            match first_repeat(values_of(entries.deep_view())) {
                None => result matches Ok(table) && table@ == entries.deep_view(),
                Some(j) => result matches Err(value) && value.deep_view() == entries.deep_view()[j].0,
            },
    {
        let ghost all = values_of(entries.deep_view());
        let mut i: usize = 0;
        assert(all.take(0) =~= Seq::<<K::Value as DeepView>::V>::empty());
        while i < entries.len()
            invariant
                i <= entries@.len(),
                all == values_of(entries.deep_view()),
                all.len() == entries@.len(),
                first_repeat(all.take(i as int)) is None,
            decreases entries@.len() - i,
        {
            let mut k: usize = 0;
            while k < i
                invariant
                    k <= i < entries@.len(),
                    all == values_of(entries.deep_view()),
                    all.len() == entries@.len(),
                    forall|m: int| 0 <= m < k ==> all[m] != all[i as int],
                    first_repeat(all.take(i as int)) is None,
                decreases i - k,
            {
                assert(all[k as int] == entries@[k as int].value.deep_view());
                assert(all[i as int] == entries@[i as int].value.deep_view());
                if K::same_value(&entries[k].value, &entries[i].value) {
                    proof {
                        assert(all.take(i + 1).drop_last() =~= all.take(i as int));
                        assert(all.take(i as int)[k as int] == all.take(i + 1).last());
                        assert(all.take(i + 1).drop_last().contains(all.take(i + 1).last()));
                        assert(first_repeat(all.take(i + 1)) == Some(i as int));
                        lemma_first_repeat_of_prefix(all, i + 1);
                    }
                    let mut rest = entries;
                    let entry = rest.remove(i);
                    return Err(entry.value);
                }
                k = k + 1;
            }
            proof {
                assert(all.take(i + 1).drop_last() =~= all.take(i as int));
                assert(!all.take(i as int).contains(all[i as int])) by {
                    if all.take(i as int).contains(all[i as int]) {
                        let m = choose|m: int| 0 <= m < i && all.take(i as int)[m] == all[i as int];
                        assert(all[m] != all[i as int]);
                    }
                }
                assert(all.take(i + 1).last() == all[i as int]);
            }
            i = i + 1;
        }
        assert(all.take(i as int) =~= all);
        proof {
            assert forall|a: int, b: int| 0 <= a < b < entries.deep_view().len() implies #[trigger] entries.deep_view()[a].0
                != #[trigger] entries.deep_view()[b].0 by {
                lemma_no_repeat_distinct(all, a, b);
            }
        }
        Ok(ExternTable { entries })
    }

    /// The entry `reference` points at.
    pub fn get(&self, reference: Extern<K>) -> (entry: &ExternEntry<K>)
        requires
            (reference.spec_index() as int) < self@.len(),
        ensures
            entry.deep_view() == self@[reference.spec_index() as int],
    {
        &self.entries[reference.index as usize]
    }

    /// Every entry, in the order the values were first interned.
    pub fn entries(&self) -> (entries: &[ExternEntry<K>])
        ensures
            entries.deep_view() == self@,
    {
        let entries = self.entries.as_slice();
        assert(entries.deep_view() =~= self@);
        entries
    }

    pub fn len(&self) -> (len: usize)
        ensures
            len == self@.len(),
    {
        self.entries.len()
    }

    pub fn is_empty(&self) -> (empty: bool)
        ensures
            empty == (self@.len() == 0),
    {
        self.entries.len() == 0
    }
}

/// Interning keeps a table well formed.
pub proof fn law_intern_keeps_table_wf<V>(table: Seq<(V, Seq<(Seq<char>, u32)>)>, value: V, at: Option<(Seq<char>, u32)>)
    requires
        table_wf(table),
    ensures
        table_wf(interned(table, value, at).0),
{
    let (after, index) = interned(table, value, at);
    assert forall|i: int, j: int| 0 <= i < j < after.len() implies #[trigger] after[i].0 != #[trigger] after[j].0 by {
        if j < table.len() {
            assert(table[i].0 != table[j].0);
        } else {
            assert(table[i].0 != value);
        }
    }
    assert forall|i: int| 0 <= i < after.len() implies (#[trigger] after[i]).1.no_duplicates() by {
        if i < table.len() {
            assert(table[i].1.no_duplicates());
        }
    }
}

/// The entry a reference points at holds the interned value and lists the location it was written
/// at; every entry that was there before keeps its place and value, and no location is lost.
pub proof fn law_intern_records_value_and_location<V>(
    table: Seq<(V, Seq<(Seq<char>, u32)>)>,
    value: V,
    at: Option<(Seq<char>, u32)>,
)
    requires
        table_wf(table),
    ensures
        ({
            let (after, index) = interned(table, value, at);
            &&& 0 <= index < after.len()
            &&& after[index].0 == value
            &&& (at matches Some(location) ==> after[index].1.contains(location))
            &&& table.len() <= after.len() <= table.len() + 1
            &&& forall|i: int| 0 <= i < table.len() ==> #[trigger] after[i].0 == table[i].0
            &&& forall|i: int, k: int|
                0 <= i < table.len() && 0 <= k < table[i].1.len() ==> after[i].1.contains(
                    #[trigger] table[i].1[k],
                )
        }),
{
    let (after, index) = interned(table, value, at);
    if let Some(location) = at {
        assert(record_location(seq![], at) =~= seq![location]);
        assert(record_location(seq![], at)[0] == location);
        if let Some(i) = index_of(table, value) {
            if !table[i].1.contains(location) {
                assert(table[i].1.push(location)[table[i].1.len() as int] == location);
            }
        }
    }
    assert forall|i: int, k: int| 0 <= i < table.len() && 0 <= k < table[i].1.len() implies after[i].1.contains(
        #[trigger] table[i].1[k],
    ) by {
        if i == index {
            if let Some(location) = at {
                if !table[i].1.contains(location) {
                    assert(table[i].1.push(location)[k] == table[i].1[k]);
                }
            }
        }
        assert(after[i].1[k] == table[i].1[k]);
    }
}

/// The table after interning each value of `writes` in turn, each with where it was written.
pub open spec fn interned_all<V>(
    table: Seq<(V, Seq<(Seq<char>, u32)>)>,
    writes: Seq<(V, Option<(Seq<char>, u32)>)>,
) -> Seq<(V, Seq<(Seq<char>, u32)>)>
    decreases writes.len(),
{
    if writes.len() == 0 {
        table
    } else {
        interned(interned_all(table, writes.drop_last()), writes.last().0, writes.last().1).0
    }
}

/// A reference that interning issues stays inside the table and keeps pointing at the value it
/// was issued for, however many values are interned after it; the table stays well-formed.
pub proof fn law_references_stay_valid<V>(
    table: Seq<(V, Seq<(Seq<char>, u32)>)>,
    value: V,
    at: Option<(Seq<char>, u32)>,
    writes: Seq<(V, Option<(Seq<char>, u32)>)>,
)
    requires
        table_wf(table),
    ensures
        ({
            let (after, index) = interned(table, value, at);
            let later = interned_all(after, writes);
            &&& 0 <= index < later.len()
            &&& later[index].0 == value
            &&& table_wf(later)
        }),
    decreases writes.len(),
{
    let (after, index) = interned(table, value, at);
    if writes.len() == 0 {
        law_intern_records_value_and_location(table, value, at);
        law_intern_keeps_table_wf(table, value, at);
    } else {
        law_references_stay_valid(table, value, at, writes.drop_last());
        let middle = interned_all(after, writes.drop_last());
        law_intern_records_value_and_location(middle, writes.last().0, writes.last().1);
        law_intern_keeps_table_wf(middle, writes.last().0, writes.last().1);
    }
}

/// Interning a value that is already present yields the index it already has, however often and
/// wherever it is written again; two different values never share an index.
pub proof fn law_intern_same_value_same_index<V>(
    table: Seq<(V, Seq<(Seq<char>, u32)>)>,
    value: V,
    first_at: Option<(Seq<char>, u32)>,
    second_at: Option<(Seq<char>, u32)>,
    other: V,
)
    requires
        table_wf(table),
    ensures
        interned(interned(table, value, first_at).0, value, second_at).1 == interned(table, value, first_at).1,
        interned(interned(table, value, first_at).0, value, second_at).0.len() == interned(
            table,
            value,
            first_at,
        ).0.len(),
        other != value ==> interned(interned(table, value, first_at).0, other, second_at).1 != interned(
            table,
            value,
            first_at,
        ).1,
{
    let (after, index) = interned(table, value, first_at);
    law_intern_keeps_table_wf(table, value, first_at);
    law_intern_records_value_and_location(table, value, first_at);
    assert(after[index].0 == value);
    let again = choose|i: int| 0 <= i < after.len() && after[i].0 == value;
    assert(again == index) by {
        if again != index {
            if again < index {
                assert(after[again].0 != after[index].0);
            } else {
                assert(after[index].0 != after[again].0);
            }
        }
    }
    if other != value {
        law_intern_records_value_and_location(after, other, second_at);
    }
}

impl<K> DeepView for Extern<K> {
    type V = u32;

    open spec fn deep_view(&self) -> u32 {
        self.spec_index()
    }
}

/// A reference to an external entry is written as its index.
impl<K> Encode for Extern<K> {
    open spec fn encoding(value: u32) -> Result<Seq<u8>, EncodeError> {
        <u32 as Encode>::encoding(value)
    }

    fn encode(&self, writer: &mut Writer) -> (result: Result<(), EncodeError>) {
        writer.u32(self.index);
        Ok(())
    }
}

/// What reading a reference into a table of `len` entries of `kind` yields.
pub open spec fn extern_parse(data: Seq<u8>, pos: int, kind: &'static str, len: usize) -> Result<(u32, int), DecodeError> {
    match parse_u32(data, pos) {
        Ok((index, end)) => if (index as int) < len {
            Ok((index, end))
        } else {
            Err(DecodeError::ExternOutOfRange { kind, index, len })
        },
        Err(e) => Err(e),
    }
}

/// Reads a reference into a table of `len` entries of `kind`; an index past the table is refused.
pub fn decode_extern<K>(reader: &mut Reader<'_>, kind: &'static str, len: usize) -> (result: Result<Extern<K>, DecodeError>)
    ensures
        final(reader).data() == old(reader).data(),
        match extern_parse(old(reader).data(), old(reader).pos(), kind, len) {
            Ok((index, end)) => result matches Ok(reference) && reference.spec_index() == index && final(reader).pos() == end,
            Err(e) => result == Err::<Extern<K>, DecodeError>(e),
        },
{
    let index = reader.u32()?;
    if (index as usize) < len {
        Ok(Extern::from_index(index))
    } else {
        Err(DecodeError::ExternOutOfRange { kind, index, len })
    }
}

/// An entry is written as its value and then the list of places that referenced it.
impl<K: ExternKind> Encode for ExternEntry<K> where K::Value: Encode {
    open spec fn encoding(value: Self::V) -> Result<Seq<u8>, EncodeError> {
        pair_encoding::<K::Value, Vec<SourceLocation>>(value.0, value.1)
    }

    fn encode(&self, writer: &mut Writer) -> (result: Result<(), EncodeError>) {
        self.value.encode(writer)?;
        self.referenced_at.encode(writer)?;
        assert(writer@ =~= old(writer)@ + Self::encoding(self.deep_view())->Ok_0);
        Ok(())
    }
}

impl<K: ExternKind> Decode for ExternEntry<K> where K::Value: Decode {
    open spec fn parse(data: Seq<u8>, pos: int) -> Result<(Self::V, int), DecodeError> {
        pair_parse::<K::Value, Vec<SourceLocation>>(data, pos)
    }

    fn decode(reader: &mut Reader<'_>) -> (result: Result<ExternEntry<K>, DecodeError>) {
        let value: K::Value = reader.decode()?;
        let referenced_at: Vec<SourceLocation> = reader.decode()?;
        Ok(ExternEntry { value, referenced_at })
    }
}

impl<K: ExternKind> WireFormat for ExternEntry<K> where K::Value: WireFormat {
    proof fn lemma_round_trip(value: Self::V, data: Seq<u8>, pos: int) {
        lemma_pair_round_trip::<K::Value, Vec<SourceLocation>>(value.0, value.1, data, pos);
    }
}

impl<K: ExternKind> DeepView for ExternTable<K> {
    type V = Seq<(<K::Value as DeepView>::V, Seq<(Seq<char>, u32)>)>;

    open spec fn deep_view(&self) -> Self::V {
        self@
    }
}

/// A table is written as the list of its entries, in order.
impl<K: ExternKind> Encode for ExternTable<K> where K::Value: Encode {
    open spec fn encoding(value: Self::V) -> Result<Seq<u8>, EncodeError> {
        <Vec<ExternEntry<K>> as Encode>::encoding(value)
    }

    fn encode(&self, writer: &mut Writer) -> (result: Result<(), EncodeError>) {
        self.entries.encode(writer)
    }
}

/// An empty table, as `new` gives.
impl<K: ExternKind> Default for ExternTable<K> {
    fn default() -> (table: Self)
        ensures
            table@ == Seq::<(<K::Value as DeepView>::V, Seq<(Seq<char>, u32)>)>::empty(),
            table_wf(table@),
    {
        ExternTable::new()
    }
}

/// Why reading a table of references failed: an error of the format, or a value listed twice.
pub enum TableFailure {
    Decode(DecodeError),
    /// The table of the named kind lists the value shown by the text twice.
    Duplicate(&'static str, Seq<char>),
}

/// What reading a table of `what` references at `pos` yields: the list of its entries, provided
/// no value repeats an earlier one.
pub open spec fn table_parse<K: ExternKind>(data: Seq<u8>, pos: int, what: &'static str) -> Result<
    (Seq<(<K::Value as DeepView>::V, Seq<(Seq<char>, u32)>)>, int),
    TableFailure,
> where K::Value: Decode {
    match <Vec<ExternEntry<K>> as Decode>::parse(data, pos) {
        Err(e) => Err(TableFailure::Decode(e)),
        Ok((entries, end)) => match first_repeat(values_of(entries)) {
            None => Ok((entries, end)),
            Some(j) => Err(TableFailure::Duplicate(what, K::key_text(entries[j].0))),
        },
    }
}

/// How a read that failed with `failure` reports it.
pub open spec fn table_failed<T>(failure: TableFailure, result: Result<T, DecodeError>) -> bool {
    match failure {
        TableFailure::Decode(e) => result == Err::<T, DecodeError>(e),
        TableFailure::Duplicate(what, key) => result matches Err(DecodeError::Duplicate { what: found, key: text })
            && found == what && text@ == key,
    }
}

/// Reads a table of `what` references: the list of its entries, refused when a value repeats an
/// earlier one.
pub fn decode_extern_table<K: ExternKind>(reader: &mut Reader<'_>, what: &'static str) -> (result: Result<
    ExternTable<K>,
    DecodeError,
>) where K::Value: Decode
    ensures
        final(reader).data() == old(reader).data(),
        match table_parse::<K>(old(reader).data(), old(reader).pos(), what) {
            Ok((entries, end)) => result matches Ok(table) && table@ == entries && final(reader).pos() == end,
            Err(failure) => table_failed(failure, result),
        },
{
    let entries: Vec<ExternEntry<K>> = reader.decode()?;
    match ExternTable::from_entries(entries) {
        Ok(table) => Ok(table),
        Err(value) => Err(DecodeError::Duplicate { what, key: K::key(&value) }),
    }
}

} // verus!
