use declavatar2::external::ExternTable;
use declavatar2::resolution::{Resolved, SourceLocation, Unresolved};
use declavatar2::unity_external::{Asset, AssetLocator, Externals, ObjectPath};
use declavatar2::value_set::{MaybeZeroableEntry, ValueSet};

fn at(line: u32) -> SourceLocation {
    SourceLocation { chunk: "avatar.lua".into(), line }
}

#[test]
fn intern_deduplicates_and_records_locations() {
    let mut table = ExternTable::<ObjectPath>::new();
    let hips1 = table.intern(Unresolved::located("Armature/Hips".into(), at(3)));
    let body = table.intern(Unresolved::located("Body".into(), at(5)));
    let hips2 = table.intern(Unresolved::located("Armature/Hips".into(), at(8)));
    let hips3 = table.intern(Unresolved::new("Armature/Hips".into()));

    assert_eq!(hips1, hips2);
    assert_eq!(hips1, hips3);
    assert_ne!(hips1, body);
    assert_eq!(table.len(), 2);
    assert_eq!(hips1.index(), 0);
    assert_eq!(body.index(), 1);
    assert_eq!(table.get(hips1).value, "Armature/Hips");
    assert_eq!(table.get(hips1).referenced_at, vec![at(3), at(8)]);
    assert_eq!(table.get(body).referenced_at, vec![at(5)]);
}

#[test]
fn a_location_is_recorded_once_however_often_it_is_interned() {
    let mut table = ExternTable::<ObjectPath>::new();
    table.intern(Unresolved::located("Body".into(), at(3)));
    table.intern(Unresolved::located("Body".into(), at(3)));
    let body = table.intern(Unresolved::located("Body".into(), at(5)));

    assert_eq!(table.get(body).referenced_at, vec![at(3), at(5)]);
}

#[test]
fn entries_come_in_the_order_values_were_first_interned() {
    let mut table = ExternTable::<ObjectPath>::new();
    assert!(table.is_empty());
    table.intern(Unresolved::located("Body".into(), at(2)));
    table.intern(Unresolved::new("Armature/Hips".into()));
    table.intern(Unresolved::new("Body".into()));

    let entries = table.entries();
    assert_eq!(entries.len(), 2);
    assert_eq!(entries[0].value, "Body");
    assert_eq!(entries[0].referenced_at, vec![at(2)]);
    assert_eq!(entries[1].value, "Armature/Hips");
    assert!(entries[1].referenced_at.is_empty());
    assert!(!table.is_empty());
}

#[test]
fn assets_are_interned_by_their_whole_locator() {
    let mut externals = Externals::new();
    assert!(!externals.needs_relative_root);
    let by_name = externals.assets.intern(Unresolved::new(AssetLocator::Named {
        asset_type: "UnityEngine.Material".into(),
        name: "Skin".into(),
    }));
    let by_path = externals.assets.intern(Unresolved::new(AssetLocator::Path("Skin".into())));
    let again = externals.assets.intern(Unresolved::located(
        AssetLocator::Named { asset_type: "UnityEngine.Material".into(), name: "Skin".into() },
        at(4),
    ));
    assert_ne!(by_name, by_path);
    assert_eq!(by_name, again);
    assert_eq!(externals.assets.len(), 2);
    assert!(externals.object_paths.is_empty());
    assert!(externals.component_types.is_empty());
    let _: &ExternTable<Asset> = &externals.assets;
}

#[test]
fn unresolved_identity_ignores_location() {
    let first = Unresolved::located("Emote", at(1));
    let second = Unresolved::located("Emote", at(20));
    let other = Unresolved::new("Hat");

    assert_eq!(first, second);
    assert_ne!(first, other);
    assert_eq!(first.at, Some(at(1)));
    assert_eq!(other.at, None);
}

#[test]
fn resolved_keeps_what_was_learned() {
    let resolved = Resolved::new("Emote", 42u8);
    assert_eq!(resolved.value, "Emote");
    assert_eq!(resolved.context, 42);
}

#[test]
fn a_location_copy_names_the_same_line() {
    let location = at(12);
    assert_eq!(location.duplicate(), location);
    assert!(location.same_as(&at(12)));
    assert!(!location.same_as(&at(13)));
    assert!(!location.same_as(&SourceLocation { chunk: "other.lua".into(), line: 12 }));
}

#[derive(Debug, Clone, Copy, PartialEq, Eq)]
struct TestEntry(u64, Option<usize>);

impl TestEntry {
    fn zeroable(key: u64, value: usize) -> TestEntry {
        TestEntry(key, Some(value))
    }

    fn non_zeroable(key: u64) -> TestEntry {
        TestEntry(key, None)
    }
}

impl MaybeZeroableEntry for TestEntry {
    type Key = u64;

    fn spec_key(&self) -> u64 {
        self.0
    }

    fn spec_zeroed(&self) -> Option<TestEntry> {
        self.zeroed()
    }

    fn key(&self) -> u64 {
        self.0
    }

    fn zeroed(&self) -> Option<TestEntry> {
        self.1.map(|_| TestEntry(self.0, Some(0)))
    }

    fn duplicate(&self) -> TestEntry {
        *self
    }
}

fn set(entries: &[TestEntry]) -> ValueSet<TestEntry> {
    ValueSet::from_entries(entries.to_vec())
}

#[test]
fn zeroed_sets_can_be_merged() {
    let mut default_set = set(&[TestEntry::zeroable(1, 0), TestEntry::zeroable(2, 10)]);
    let other1 = set(&[TestEntry::zeroable(1, 10), TestEntry::zeroable(3, 10)]);
    let other2 = set(&[TestEntry::zeroable(2, 30), TestEntry::zeroable(4, 100)]);

    let merge_result = default_set.union_fill_as_zero(&[other1, other2]);
    assert!(merge_result.is_ok());
    assert_eq!(
        default_set,
        set(&[
            TestEntry::zeroable(1, 0),
            TestEntry::zeroable(2, 10),
            TestEntry::zeroable(3, 0),
            TestEntry::zeroable(4, 0),
        ]),
    );
}

#[test]
fn non_zeroable_entries_will_fail() {
    let mut default_set = set(&[TestEntry::zeroable(1, 0), TestEntry::zeroable(2, 10)]);
    let other1 = set(&[TestEntry::zeroable(1, 10), TestEntry::non_zeroable(3)]);
    let other2 = set(&[TestEntry::zeroable(2, 30), TestEntry::non_zeroable(4)]);

    let merge_result = default_set.union_fill_as_zero(&[other1, other2]);
    assert_eq!(merge_result, Err(vec![3, 4]));
    assert_eq!(default_set, set(&[TestEntry::zeroable(1, 0), TestEntry::zeroable(2, 10)]));
}

#[test]
fn non_zeroable_in_default_set_can_be_merged() {
    let mut default_set = set(&[TestEntry::non_zeroable(1), TestEntry::non_zeroable(2)]);
    let other1 = set(&[TestEntry::zeroable(3, 10)]);
    let other2 = set(&[TestEntry::zeroable(4, 100)]);

    let merge_result = default_set.union_fill_as_zero(&[other1, other2]);
    assert!(merge_result.is_ok());
    assert_eq!(
        default_set,
        set(&[
            TestEntry::non_zeroable(1),
            TestEntry::non_zeroable(2),
            TestEntry::zeroable(3, 0),
            TestEntry::zeroable(4, 0),
        ]),
    );
}

#[test]
fn non_zeroable_both_in_default_set_and_others_can_be_merged() {
    let mut default_set = set(&[
        TestEntry::non_zeroable(1),
        TestEntry::non_zeroable(2),
        TestEntry::non_zeroable(3),
        TestEntry::non_zeroable(4),
    ]);
    let other1 = set(&[TestEntry::non_zeroable(3), TestEntry::zeroable(5, 100)]);
    let other2 = set(&[TestEntry::non_zeroable(4), TestEntry::zeroable(6, 100)]);

    let merge_result = default_set.union_fill_as_zero(&[other1, other2]);
    assert!(merge_result.is_ok());
    assert_eq!(
        default_set,
        set(&[
            TestEntry::non_zeroable(1),
            TestEntry::non_zeroable(2),
            TestEntry::non_zeroable(3),
            TestEntry::non_zeroable(4),
            TestEntry::zeroable(5, 0),
            TestEntry::zeroable(6, 0),
        ]),
    );
}

#[test]
fn defaults_can_be_merged() {
    let mut defaults = set(&[TestEntry::zeroable(1, 10), TestEntry::zeroable(3, 100)]);
    let mut values = set(&[TestEntry::zeroable(1, 20), TestEntry::zeroable(2, 50)]);

    let default_merge_result = defaults.union_fill_as_zero(std::slice::from_ref(&values));
    assert!(default_merge_result.is_ok());

    let merge_result = values.union_from_defaults(&defaults);
    assert!(merge_result.is_ok());
    assert_eq!(
        values,
        set(&[TestEntry::zeroable(1, 20), TestEntry::zeroable(2, 50), TestEntry::zeroable(3, 100)]),
    );
}

#[test]
fn orphan_defaults_will_fail() {
    let defaults = set(&[TestEntry::zeroable(1, 10), TestEntry::zeroable(3, 100)]);
    let mut values = set(&[TestEntry::zeroable(1, 20), TestEntry::zeroable(2, 50)]);

    let merge_result = values.union_from_defaults(&defaults);
    assert_eq!(merge_result, Err(vec![2]));
    assert_eq!(values, set(&[TestEntry::zeroable(1, 20), TestEntry::zeroable(2, 50)]));
}

#[test]
fn a_set_keeps_one_entry_per_key_in_key_order() {
    let mut values = set(&[TestEntry::zeroable(5, 1), TestEntry::zeroable(2, 2), TestEntry::zeroable(5, 3)]);
    assert_eq!(values.entries(), [TestEntry::zeroable(2, 2), TestEntry::zeroable(5, 3)]);
    assert_eq!(values.len(), 2);
    assert!(values.contains_key(&5));
    assert!(!values.contains_key(&4));

    assert_eq!(values.insert(TestEntry::zeroable(4, 7)), None);
    assert_eq!(values.insert(TestEntry::non_zeroable(2)), Some(TestEntry::zeroable(2, 2)));
    assert_eq!(
        values.entries(),
        [TestEntry::non_zeroable(2), TestEntry::zeroable(4, 7), TestEntry::zeroable(5, 3)]
    );
    assert_eq!(ValueSet::<TestEntry>::new().len(), 0);
}
