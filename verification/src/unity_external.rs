//! The kinds of Unity-side references an avatar asks the client to look up.
use vstd::prelude::*;

use crate::external::{debug_quoted, quote_debug, ExternKind, ExternTable};

verus! {

/// Path to a GameObject, such as `Armature/Hips`.
#[derive(Debug, Clone, Copy, PartialEq, Eq, PartialOrd, Ord, Hash)]
pub struct ObjectPath;

/// Fully qualified Unity component type name, such as `UnityEngine.Light`.
#[derive(Debug, Clone, Copy, PartialEq, Eq, PartialOrd, Ord, Hash)]
pub struct ComponentType;

/// Unity asset located by an `AssetLocator`.
#[derive(Debug, Clone, Copy, PartialEq, Eq, PartialOrd, Ord, Hash)]
pub struct Asset;

impl ExternKind for ObjectPath {
    type Value = String;

    fn same_value(first: &String, second: &String) -> (same: bool) {
        *first == *second
    }

    open spec fn key_text(value: Seq<char>) -> Seq<char> {
        debug_quoted(value)
    }

    fn key(value: &String) -> (key: String) {
        quote_debug(value.as_str())
    }
}

impl ExternKind for ComponentType {
    type Value = String;

    fn same_value(first: &String, second: &String) -> (same: bool) {
        *first == *second
    }

    open spec fn key_text(value: Seq<char>) -> Seq<char> {
        debug_quoted(value)
    }

    fn key(value: &String) -> (key: String) {
        quote_debug(value.as_str())
    }
}

/// How the client should find a Unity asset.
#[derive(Debug, Clone, PartialEq, Eq, PartialOrd, Ord, Hash)]
pub enum AssetLocator {
    /// By asset GUID.
    Guid(String),
    /// By asset path from the project root.
    Path(String),
    /// By asset name and its fully qualified type name.
    Named { asset_type: String, name: String },
}

/// An `AssetLocator` seen through the text it holds.
pub enum LocatorView {
    Guid(Seq<char>),
    Path(Seq<char>),
    Named { asset_type: Seq<char>, name: Seq<char> },
}

impl DeepView for AssetLocator {
    type V = LocatorView;

    open spec fn deep_view(&self) -> LocatorView {
        match self {
            AssetLocator::Guid(guid) => LocatorView::Guid(guid@),
            AssetLocator::Path(path) => LocatorView::Path(path@),
            AssetLocator::Named { asset_type, name } => LocatorView::Named { asset_type: asset_type@, name: name@ },
        }
    }
}

impl ExternKind for Asset {
    type Value = AssetLocator;

    fn same_value(first: &AssetLocator, second: &AssetLocator) -> (same: bool) {
        match (first, second) {
            (AssetLocator::Guid(a), AssetLocator::Guid(b)) => *a == *b,
            (AssetLocator::Path(a), AssetLocator::Path(b)) => *a == *b,
            (
                AssetLocator::Named { asset_type: first_type, name: first_name },
                AssetLocator::Named { asset_type: second_type, name: second_name },
            ) => *first_type == *second_type && *first_name == *second_name,
            _ => false,
        }
    }

    /// A locator is named as `Debug` shows it: its variant, then its fields.
    open spec fn key_text(value: LocatorView) -> Seq<char> {
        match value {
            LocatorView::Guid(guid) => "Guid("@ + debug_quoted(guid) + ")"@,
            LocatorView::Path(path) => "Path("@ + debug_quoted(path) + ")"@,
            LocatorView::Named { asset_type, name } => "Named { asset_type: "@ + debug_quoted(asset_type)
                + ", name: "@ + debug_quoted(name) + " }"@,
        }
    }

    fn key(value: &AssetLocator) -> (key: String) {
        let mut key = String::new();
        match value {
            AssetLocator::Guid(guid) => {
                key.append("Guid(");
                key.append(quote_debug(guid.as_str()).as_str());
                key.append(")");
            },
            AssetLocator::Path(path) => {
                key.append("Path(");
                key.append(quote_debug(path.as_str()).as_str());
                key.append(")");
            },
            AssetLocator::Named { asset_type, name } => {
                key.append("Named { asset_type: ");
                key.append(quote_debug(asset_type.as_str()).as_str());
                key.append(", name: ");
                key.append(quote_debug(name.as_str()).as_str());
                key.append(" }");
            },
        }
        assert(key@ =~= Self::key_text(value.deep_view()));
        key
    }
}

/// Everything an avatar asks the client for: every reference table, and whether a root for
/// relative paths has to be given.
#[derive(Debug)]
pub struct Externals {
    pub object_paths: ExternTable<ObjectPath>,
    pub component_types: ExternTable<ComponentType>,
    pub assets: ExternTable<Asset>,
    /// Whether any controller uses relative paths, so the client must supply their root.
    pub needs_relative_root: bool,
}

impl Externals {
    /// No references, and no root needed.
    pub fn new() -> (externals: Externals)
        ensures
            externals.object_paths@.len() == 0,
            externals.component_types@.len() == 0,
            externals.assets@.len() == 0,
            !externals.needs_relative_root,
    {
        Externals {
            object_paths: ExternTable::new(),
            component_types: ExternTable::new(),
            assets: ExternTable::new(),
            needs_relative_root: false,
        }
    }
}

} // verus!
