//! Objects a script binds with `da.renderer`, `da.object` and `da.component`, and the targets
//! their methods animate.
use vstd::prelude::*;
use vstd::string::*;

use crate::resolution::{SourceLocation, Unresolved};
use crate::target::{
    AnimatedAnimatorProperty, AnimatedAnimatorTarget, AnimatedComponentProperty, AnimatedComponentTarget,
    AnimatedGameObjectProperty, AnimatedGameObjectTarget, AnimatedRendererProperty, AnimatedRendererTarget,
    AnimatedTarget, Declared,
};
use crate::unity_external::AssetLocator;
use crate::value::AnimatedValueType;

verus! {

/// The renderer type `da.renderer` assumes when the script names none.
pub open spec fn default_renderer_type() -> Seq<char> {
    "UnityEngine.SkinnedMeshRenderer"@
}

/// The asset type a bare name stands for where a material is expected.
pub open spec fn material_type() -> Seq<char> {
    "UnityEngine.Material"@
}

/// The asset type a bare name stands for where a material is expected.
pub fn material_type_name() -> (name: &'static str)
    ensures
        name@ == material_type(),
{
    "UnityEngine.Material"
}

/// The renderer type `da.renderer` assumes when the script names none.
pub fn default_renderer_type_name() -> (name: &'static str)
    ensures
        name@ == default_renderer_type(),
{
    "UnityEngine.SkinnedMeshRenderer"
}

/// A name written where the target is used, so that an error points at the line that uses a
/// bound object rather than at the line that bound it.
pub open spec fn relocated(bound: Unresolved<String>, at: Option<SourceLocation>) -> Unresolved<String> {
    Unresolved { value: bound.value, at }
}

/// Renderer bound by `da.renderer`.
#[derive(Debug, Clone)]
pub struct Renderer {
    path: Unresolved<String>,
    renderer_type: String,
}

impl Renderer {
    pub closed spec fn path(&self) -> Unresolved<String> {
        self.path
    }

    pub closed spec fn renderer_type(&self) -> String {
        self.renderer_type
    }

    /// Binds the renderer at `path`, of `renderer_type` or else a skinned mesh renderer.
    pub fn new(path: Unresolved<String>, renderer_type: Option<String>) -> (renderer: Renderer)
        ensures
            renderer.path() == path,
            renderer.renderer_type()@ == match renderer_type {
                Some(written) => written@,
                None => default_renderer_type(),
            },
    {
        let renderer_type = match renderer_type {
            Some(written) => written,
            None => String::from_str(default_renderer_type_name()),
        };
        Renderer { path, renderer_type }
    }

    /// The target a method of the renderer animates, written at `at`.
    pub fn target(&self, property: AnimatedRendererProperty, at: Option<SourceLocation>) -> (target:
        AnimatedTarget<Declared>)
        ensures
            target == AnimatedTarget::<Declared>::Renderer(
                AnimatedRendererTarget {
                    path: relocated(self.path(), at),
                    renderer_type: self.renderer_type(),
                    property,
                },
            ),
    {
        AnimatedTarget::Renderer(
            AnimatedRendererTarget {
                path: Unresolved { value: self.path.value.clone(), at },
                renderer_type: self.renderer_type.clone(),
                property,
            },
        )
    }
}

/// GameObject bound by `da.object`.
#[derive(Debug, Clone)]
pub struct GameObject {
    path: Unresolved<String>,
}

impl GameObject {
    pub closed spec fn path(&self) -> Unresolved<String> {
        self.path
    }

    pub fn new(path: Unresolved<String>) -> (object: GameObject)
        ensures
            object.path() == path,
    {
        GameObject { path }
    }

    /// The target a method of the object animates, written at `at`.
    pub fn target(&self, property: AnimatedGameObjectProperty, at: Option<SourceLocation>) -> (target:
        AnimatedTarget<Declared>)
        ensures
            target == AnimatedTarget::<Declared>::GameObject(
                AnimatedGameObjectTarget { path: relocated(self.path(), at), property },
            ),
    {
        AnimatedTarget::GameObject(
            AnimatedGameObjectTarget { path: Unresolved { value: self.path.value.clone(), at }, property },
        )
    }
}

/// Component bound by `da.component`.
#[derive(Debug, Clone)]
pub struct Component {
    path: Unresolved<String>,
    component_type: Unresolved<String>,
}

impl Component {
    pub closed spec fn path(&self) -> Unresolved<String> {
        self.path
    }

    pub closed spec fn component_type(&self) -> Unresolved<String> {
        self.component_type
    }

    pub fn new(path: Unresolved<String>, component_type: Unresolved<String>) -> (component: Component)
        ensures
            component.path() == path,
            component.component_type() == component_type,
    {
        Component { path, component_type }
    }

    /// The target a method of the component animates with a value of `value_type`, written at
    /// `at`. Both the path and the component type are written there.
    pub fn target(&self, property: AnimatedComponentProperty, value_type: AnimatedValueType, at: Option<
        SourceLocation,
    >) -> (target: AnimatedTarget<Declared>)
        ensures
            target == AnimatedTarget::<Declared>::Component(
                AnimatedComponentTarget {
                    path: relocated(self.path(), at),
                    component_type: relocated(self.component_type(), at),
                    property,
                    value_type,
                },
            ),
    {
        let path_at = match &at {
            Some(location) => Some(location.duplicate()),
            None => None,
        };
        AnimatedTarget::Component(
            AnimatedComponentTarget {
                path: Unresolved { value: self.path.value.clone(), at: path_at },
                component_type: Unresolved { value: self.component_type.value.clone(), at },
                property,
                value_type,
            },
        )
    }
}

/// The target of `da.animator_parameter(name)`: the value of a float parameter of the animator.
pub fn animator_parameter(name: Unresolved<String>) -> (target: AnimatedTarget<Declared>)
    ensures
        target == AnimatedTarget::<Declared>::AnimatorSelf(
            AnimatedAnimatorTarget { property: AnimatedAnimatorProperty::ParameterFloatValue { name } },
        ),
{
    AnimatedTarget::AnimatorSelf(
        AnimatedAnimatorTarget { property: AnimatedAnimatorProperty::ParameterFloatValue { name } },
    )
}

/// The material slot a script wrote, which must not be negative.
pub fn material_slot(written: i64) -> (slot: Option<u32>)
    ensures
        slot == if 0 <= written <= u32::MAX {
            Some(written as u32)
        } else {
            None::<u32>
        },
{
    if 0 <= written && written <= u32::MAX as i64 {
        Some(written as u32)
    } else {
        None
    }
}

/// An asset written either as a bare name or as an explicit locator.
#[derive(Debug, Clone)]
pub enum AssetArgument {
    Named(String),
    Locator(AssetLocator),
}

impl AssetArgument {
    /// The locator the argument stands for, giving a bare name the type its position implies.
    pub fn into_locator(self, bare_type: &str) -> (locator: AssetLocator)
        ensures
            match self {
                AssetArgument::Named(name) => locator matches AssetLocator::Named { asset_type, name: n }
                    && asset_type@ == bare_type@ && n == name,
                AssetArgument::Locator(written) => locator == written,
            },
    {
        match self {
            AssetArgument::Named(name) => AssetLocator::Named { asset_type: bare_type.to_owned(), name },
            AssetArgument::Locator(locator) => locator,
        }
    }
}

} // verus!
