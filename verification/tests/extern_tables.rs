use declavatar2::avatar_codec::decode_externals;
use declavatar2::external::{decode_extern_table, ExternEntry, ExternTable};
use declavatar2::resolution::{SourceLocation, Unresolved};
use declavatar2::unity_external::{Asset, AssetLocator, ComponentType, Externals, ObjectPath};
use declavatar2::wire::{DecodeError, Encode, Reader, Writer};

fn at(line: u32) -> SourceLocation {
    SourceLocation { chunk: "avatar.lua".into(), line }
}

fn extern_table_with_duplicate_values() -> Vec<u8> {
    let mut writer = Writer::new();
    writer.u32(2);
    for _ in 0..2 {
        writer.string("Body").unwrap();
        writer.u32(0);
    }
    writer.into_bytes()
}

#[test]
fn duplicate_extern_values() {
    let bytes = extern_table_with_duplicate_values();
    let mut reader = Reader::new(&bytes);
    let result = decode_extern_table::<ObjectPath>(&mut reader, "object path");
    assert_eq!(result.unwrap_err(), DecodeError::Duplicate { what: "object path", key: "\"Body\"".into() });
}

#[test]
fn a_repeated_asset_is_named_as_its_locator() {
    let entry = |locator: AssetLocator| ExternEntry::<Asset> { value: locator, referenced_at: vec![] };
    let first = ExternTable::<Asset>::from_entries(vec![
        entry(AssetLocator::Guid("g".into())),
        entry(AssetLocator::Named { asset_type: "T".into(), name: "n".into() }),
        entry(AssetLocator::Path("p".into())),
        entry(AssetLocator::Named { asset_type: "T".into(), name: "n".into() }),
    ]);
    let value = first.err().unwrap();
    assert_eq!(value, AssetLocator::Named { asset_type: "T".into(), name: "n".into() });

    let mut writer = Writer::new();
    writer.u32(2);
    for _ in 0..2 {
        writer.u8(2);
        writer.string("T").unwrap();
        writer.string("n").unwrap();
        writer.u32(0);
    }
    let bytes = writer.into_bytes();
    let mut reader = Reader::new(&bytes);
    let result = decode_extern_table::<Asset>(&mut reader, "asset");
    assert_eq!(
        result.unwrap_err(),
        DecodeError::Duplicate { what: "asset", key: "Named { asset_type: \"T\", name: \"n\" }".into() }
    );
}

#[test]
fn a_table_without_repeats_keeps_its_entries_in_order() {
    let table = ExternTable::<ComponentType>::from_entries(vec![
        ExternEntry { value: "UnityEngine.Light".into(), referenced_at: vec![at(2), at(2)] },
        ExternEntry { value: "UnityEngine.Camera".into(), referenced_at: vec![] },
    ])
    .unwrap();
    assert_eq!(table.len(), 2);
    assert_eq!(table.entries()[0].value, "UnityEngine.Light");
    assert_eq!(table.entries()[0].referenced_at, vec![at(2), at(2)]);
    assert_eq!(table.entries()[1].value, "UnityEngine.Camera");
}

#[test]
fn the_references_read_back_as_they_were_written() {
    let mut externals = Externals::new();
    externals.object_paths.intern(Unresolved::located("Armature/Hips".into(), at(3)));
    externals.object_paths.intern(Unresolved::located("Body".into(), at(4)));
    externals.component_types.intern(Unresolved::new("UnityEngine.Light".into()));
    externals.assets.intern(Unresolved::located(AssetLocator::Guid("0123".into()), at(9)));
    externals.assets.intern(Unresolved::new(AssetLocator::Path("Assets/a.anim".into())));
    externals.needs_relative_root = true;

    let mut writer = Writer::new();
    externals.encode(&mut writer).unwrap();
    let bytes = writer.into_bytes();
    let mut reader = Reader::new(&bytes);
    let read = decode_externals(&mut reader).unwrap();
    reader.finish().unwrap();

    assert!(read.needs_relative_root);
    assert_eq!(read.object_paths.len(), 2);
    assert_eq!(read.object_paths.entries()[1].value, "Body");
    assert_eq!(read.object_paths.entries()[1].referenced_at, vec![at(4)]);
    assert_eq!(read.component_types.entries()[0].value, "UnityEngine.Light");
    assert_eq!(read.assets.entries()[0].value, AssetLocator::Guid("0123".into()));
    assert_eq!(read.assets.entries()[0].referenced_at, vec![at(9)]);
    assert_eq!(read.assets.entries()[1].value, AssetLocator::Path("Assets/a.anim".into()));
}

#[test]
fn a_truncated_reference_list_is_refused() {
    let externals = Externals::new();
    let mut writer = Writer::new();
    externals.encode(&mut writer).unwrap();
    let bytes = writer.into_bytes();
    let mut reader = Reader::new(&bytes[..bytes.len() - 1]);
    assert!(matches!(decode_externals(&mut reader), Err(DecodeError::UnexpectedEnd { .. })));
}

#[test]
fn a_new_table_is_empty_and_the_default_one() {
    let table = ExternTable::<ObjectPath>::new();
    let default = ExternTable::<ObjectPath>::default();
    assert_eq!(table.len(), 0);
    assert!(table.is_empty());
    assert!(table.entries().is_empty());
    assert_eq!(default.len(), 0);
    assert!(default.entries().is_empty());
}

#[test]
fn an_oversized_length_writes_nothing() {
    let mut writer = Writer::new();
    let value = u32::MAX as usize + 1;
    assert_eq!(
        writer.length("list length", value),
        Err(declavatar2::wire::EncodeError::Overflow { what: "list length", value })
    );
    assert!(writer.into_bytes().is_empty());
    let mut writer = Writer::new();
    writer.length("list length", 3).unwrap();
    assert_eq!(writer.into_bytes(), vec![3, 0, 0, 0]);
}

#[test]
fn a_reference_stays_valid_across_later_interns() {
    let mut table = ExternTable::<ObjectPath>::new();
    let body = table.intern(Unresolved::located("Body".into(), at(1)));
    for i in 0..20u32 {
        table.intern(Unresolved::located(format!("Path/{i}"), at(i)));
        table.intern(Unresolved::new("Body".into()));
        assert!((body.index() as usize) < table.len());
        assert_eq!(table.get(body).value, "Body");
    }
    assert_eq!(table.len(), 21);
}
