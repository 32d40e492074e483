//! Compiling the parts of the expression menu that refer to parameters: the axes of puppet
//! controls, and how many controls a menu may hold.
use vstd::prelude::*;

use crate::controller::MenuAxis;
use crate::drives::{drive, drive_puppet, drive_target, puppet_drive, DriveOutline, DriveTarget};
use crate::layers::{LayerInfo, LayerTable};
use crate::parameters::{typed_resolution, ParameterEntry, ParameterRef, ParameterTable};
use crate::resolution::{duplicate_location, SourceLocation, Unresolved};
use crate::transform_error::{TransformError, TransformErrorKind};
use crate::value::AnimatedValueType;

verus! {

/// How many controls one menu can hold.
pub const MENU_CAPACITY: usize = 8;

/// What an axis of a puppet control was written to move: a parameter, a puppet layer through
/// `da.drive_puppet(layer)` without a value, or some other drive, which no axis can take.
#[derive(Debug, Clone)]
pub enum AxisTarget {
    Parameter(Unresolved<String>),
    PuppetLayer(Unresolved<String>),
    OtherDrive { at: Option<SourceLocation> },
}

/// One axis of a puppet control as the script wrote it, with optional labels for its ends.
#[derive(Debug, Clone)]
pub struct AxisOutline {
    pub target: AxisTarget,
    pub positive: Option<String>,
    pub negative: Option<String>,
}

/// The float parameter an axis moves, or why it cannot move one.
pub open spec fn axis_parameter(
    layers: Map<Seq<char>, LayerInfo>,
    parameters: Seq<ParameterEntry>,
    target: AxisTarget,
) -> Result<ParameterRef, TransformError> {
    match target {
        AxisTarget::Parameter(parameter) => typed_resolution(parameters, parameter, AnimatedValueType::Float),
        AxisTarget::PuppetLayer(layer) => puppet_drive(layers, parameters, layer),
        AxisTarget::OtherDrive { at } => Err(TransformError { at, kind: TransformErrorKind::InvalidAxis }),
    }
}

fn copy_label(label: &Option<String>) -> (copy: Option<String>)
    ensures
        copy == *label,
{
    match label {
        Some(text) => Some(text.clone()),
        None => None,
    }
}

/// Compiles one axis of a puppet control: the float parameter it moves, with its labels.
pub fn compile_axis(layers: &LayerTable, parameters: &ParameterTable, axis: &AxisOutline) -> (result: Result<
    MenuAxis,
    TransformError,
>)
    requires
        layers.wf(),
        parameters.wf(),
    ensures
        match axis_parameter(layers.infos(), parameters.entries(), axis.target) {
            Ok(parameter) => result == Ok::<MenuAxis, TransformError>(
                MenuAxis { parameter, positive: axis.positive, negative: axis.negative },
            ),
            Err(error) => result == Err::<MenuAxis, TransformError>(error),
        },
{
    let parameter = match &axis.target {
        AxisTarget::Parameter(parameter) => parameters.resolve_typed(parameter, AnimatedValueType::Float),
        AxisTarget::PuppetLayer(layer) => drive_puppet(layers, parameters, layer),
        AxisTarget::OtherDrive { at } => Err(TransformError::at(TransformErrorKind::InvalidAxis, duplicate_location(at))),
    };
    match parameter {
        Ok(parameter) => Ok(
            MenuAxis { parameter, positive: copy_label(&axis.positive), negative: copy_label(&axis.negative) },
        ),
        Err(error) => Err(error),
    }
}

/// Whether `error` says that the menu named `owner` holds `count` controls, more than a menu can.
pub open spec fn too_large(error: TransformError, owner: Seq<char>, count: usize) -> bool {
    &&& error.at is None
    &&& match error.kind {
        TransformErrorKind::MenuTooLarge { name, count: found, capacity } => name@ == owner && found == count
            && capacity == MENU_CAPACITY,
        _ => false,
    }
}

/// The error for a menu named `owner` that holds more controls than a menu can, if it does.
pub fn check_menu_size(owner: &str, count: usize) -> (error: Option<TransformError>)
    ensures
        count <= MENU_CAPACITY ==> error is None,
        count > MENU_CAPACITY ==> (error matches Some(e) && too_large(e, owner@, count)),
{
    if count > MENU_CAPACITY {
        Some(
            TransformError::new(
                TransformErrorKind::MenuTooLarge { name: owner.to_owned(), count, capacity: MENU_CAPACITY },
            ),
        )
    } else {
        None
    }
}

/// The axis an axis outline compiles to, or why it cannot compile.
pub open spec fn axis_outcome(
    layers: Map<Seq<char>, LayerInfo>,
    parameters: Seq<ParameterEntry>,
    axis: AxisOutline,
) -> Result<MenuAxis, TransformError> {
    match axis_parameter(layers, parameters, axis.target) {
        Ok(parameter) => Ok(MenuAxis { parameter, positive: axis.positive, negative: axis.negative }),
        Err(error) => Err(error),
    }
}

/// A control of the expression menu as the script wrote it.
#[derive(Debug)]
pub enum MenuItemOutline {
    SubMenu { name: String, items: Vec<MenuItemOutline> },
    Toggle { name: String, drive: DriveOutline },
    Button { name: String, drive: DriveOutline },
    Radial { name: String, axis: AxisOutline },
    TwoAxis { name: String, horizontal: AxisOutline, vertical: AxisOutline },
    FourAxis { name: String, up: AxisOutline, down: AxisOutline, left: AxisOutline, right: AxisOutline },
}

/// A compiled control of the expression menu.
#[derive(Debug, PartialEq)]
pub enum MenuEntry {
    SubMenu { name: String, items: Vec<MenuEntry> },
    Toggle { name: String, target: DriveTarget },
    Button { name: String, target: DriveTarget },
    Radial { name: String, axis: MenuAxis },
    TwoAxis { name: String, horizontal: MenuAxis, vertical: MenuAxis },
    FourAxis { name: String, up: MenuAxis, down: MenuAxis, left: MenuAxis, right: MenuAxis },
}

/// A `MenuEntry` as a value, with the controls of a submenu as a sequence.
pub enum MenuEntryView {
    SubMenu { name: String, items: Seq<MenuEntryView> },
    Toggle { name: String, target: DriveTarget },
    Button { name: String, target: DriveTarget },
    Radial { name: String, axis: MenuAxis },
    TwoAxis { name: String, horizontal: MenuAxis, vertical: MenuAxis },
    FourAxis { name: String, up: MenuAxis, down: MenuAxis, left: MenuAxis, right: MenuAxis },
}

/// A compiled control as a value.
pub open spec fn entry_view(entry: MenuEntry) -> MenuEntryView
    decreases entry, 0int,
{
    match entry {
        MenuEntry::SubMenu { name, items } => MenuEntryView::SubMenu { name, items: entries_view(items@) },
        MenuEntry::Toggle { name, target } => MenuEntryView::Toggle { name, target },
        MenuEntry::Button { name, target } => MenuEntryView::Button { name, target },
        MenuEntry::Radial { name, axis } => MenuEntryView::Radial { name, axis },
        MenuEntry::TwoAxis { name, horizontal, vertical } => MenuEntryView::TwoAxis { name, horizontal, vertical },
        MenuEntry::FourAxis { name, up, down, left, right } => MenuEntryView::FourAxis { name, up, down, left, right },
    }
}

/// Compiled controls as values, in order.
pub open spec fn entries_view(entries: Seq<MenuEntry>) -> Seq<MenuEntryView>
    decreases entries, 0int,
{
    if entries.len() == 0 {
        seq![]
    } else {
        entries_view(entries.drop_last()).push(entry_view(entries.last()))
    }
}

/// The first of two axes that fails, or both axes.
pub open spec fn both_axes(first: Result<MenuAxis, TransformError>, second: Result<MenuAxis, TransformError>) -> Result<
    (MenuAxis, MenuAxis),
    TransformError,
> {
    match first {
        Err(error) => Err(error),
        Ok(a) => match second {
            Err(error) => Err(error),
            Ok(b) => Ok((a, b)),
        },
    }
}

/// The error for a menu named `owner` with `count` controls, if that is more than it can hold.
pub open spec fn size_errors(owner: String, count: nat) -> Seq<TransformError> {
    if count > MENU_CAPACITY {
        seq![
            TransformError {
                at: None,
                kind: TransformErrorKind::MenuTooLarge { name: owner, count: count as usize, capacity: MENU_CAPACITY },
            },
        ]
    } else {
        seq![]
    }
}

/// What one control compiles to, and the errors recorded on the way for the controls of a
/// submenu it holds. A submenu always compiles; any other control fails when its drive or one of
/// its axes does.
pub open spec fn item_outcome(
    layers: Map<Seq<char>, LayerInfo>,
    parameters: Seq<ParameterEntry>,
    item: MenuItemOutline,
) -> (Result<MenuEntryView, TransformError>, Seq<TransformError>)
    decreases item, 1int,
{
    match item {
        MenuItemOutline::SubMenu { name, items } => {
            let inner = each_outcome(layers, parameters, items@);
            (Ok(MenuEntryView::SubMenu { name, items: inner.0 }), size_errors(name, items@.len()) + inner.1)
        },
        MenuItemOutline::Toggle { name, drive } => match drive_target(layers, parameters, drive) {
            Ok(target) => (Ok(MenuEntryView::Toggle { name, target }), seq![]),
            Err(error) => (Err(error), seq![]),
        },
        MenuItemOutline::Button { name, drive } => match drive_target(layers, parameters, drive) {
            Ok(target) => (Ok(MenuEntryView::Button { name, target }), seq![]),
            Err(error) => (Err(error), seq![]),
        },
        MenuItemOutline::Radial { name, axis } => match axis_outcome(layers, parameters, axis) {
            Ok(axis) => (Ok(MenuEntryView::Radial { name, axis }), seq![]),
            Err(error) => (Err(error), seq![]),
        },
        MenuItemOutline::TwoAxis { name, horizontal, vertical } => match both_axes(
            axis_outcome(layers, parameters, horizontal),
            axis_outcome(layers, parameters, vertical),
        ) {
            Ok((horizontal, vertical)) => (Ok(MenuEntryView::TwoAxis { name, horizontal, vertical }), seq![]),
            Err(error) => (Err(error), seq![]),
        },
        MenuItemOutline::FourAxis { name, up, down, left, right } => match both_axes(
            axis_outcome(layers, parameters, up),
            axis_outcome(layers, parameters, down),
        ) {
            Err(error) => (Err(error), seq![]),
            Ok((up, down)) => match both_axes(
                axis_outcome(layers, parameters, left),
                axis_outcome(layers, parameters, right),
            ) {
                Err(error) => (Err(error), seq![]),
                Ok((left, right)) => (Ok(MenuEntryView::FourAxis { name, up, down, left, right }), seq![]),
            },
        },
    }
}

/// The controls of one menu, in order: each control that compiles is kept, and each that fails
/// is dropped with its error recorded after the errors of its own submenu, so every control gets
/// checked.
pub open spec fn each_outcome(
    layers: Map<Seq<char>, LayerInfo>,
    parameters: Seq<ParameterEntry>,
    items: Seq<MenuItemOutline>,
) -> (Seq<MenuEntryView>, Seq<TransformError>)
    decreases items, 0int,
{
    if items.len() == 0 {
        (seq![], seq![])
    } else {
        let front = each_outcome(layers, parameters, items.drop_last());
        let last = item_outcome(layers, parameters, items.last());
        match last.0 {
            Ok(entry) => (front.0.push(entry), front.1 + last.1),
            Err(error) => (front.0, front.1 + last.1.push(error)),
        }
    }
}

/// A menu named `owner`: the error for holding too many controls, if it does, comes before the
/// errors of its controls.
pub open spec fn menu_outcome(
    layers: Map<Seq<char>, LayerInfo>,
    parameters: Seq<ParameterEntry>,
    owner: String,
    items: Seq<MenuItemOutline>,
) -> (Seq<MenuEntryView>, Seq<TransformError>) {
    let each = each_outcome(layers, parameters, items);
    (each.0, size_errors(owner, items.len()) + each.1)
}

fn compile_both(layers: &LayerTable, parameters: &ParameterTable, first: &AxisOutline, second: &AxisOutline) -> (result:
    Result<(MenuAxis, MenuAxis), TransformError>)
    requires
        layers.wf(),
        parameters.wf(),
    ensures
        result == both_axes(
            axis_outcome(layers.infos(), parameters.entries(), *first),
            axis_outcome(layers.infos(), parameters.entries(), *second),
        ),
{
    let a = match compile_axis(layers, parameters, first) {
        Ok(a) => a,
        Err(error) => return Err(error),
    };
    match compile_axis(layers, parameters, second) {
        Ok(b) => Ok((a, b)),
        Err(error) => Err(error),
    }
}

/// Compiles one control. The errors of the controls of a submenu are recorded in `errors`; the
/// control's own failure is returned.
pub fn compile_item(
    layers: &LayerTable,
    parameters: &ParameterTable,
    item: &MenuItemOutline,
    errors: &mut Vec<TransformError>,
) -> (result: Result<MenuEntry, TransformError>)
    requires
        layers.wf(),
        parameters.wf(),
    ensures
        final(errors)@ == old(errors)@ + item_outcome(layers.infos(), parameters.entries(), *item).1,
        match item_outcome(layers.infos(), parameters.entries(), *item).0 {
            Ok(view) => result matches Ok(entry) && entry_view(entry) == view,
            Err(error) => result == Err::<MenuEntry, TransformError>(error),
        },
    decreases item, 1int,
{
    match item {
        MenuItemOutline::SubMenu { name, items } => {
            let entries = compile_menu_items(layers, parameters, name, items, errors);
            Ok(MenuEntry::SubMenu { name: name.clone(), items: entries })
        },
        MenuItemOutline::Toggle { name, drive: requested } => {
            assert(old(errors)@ + Seq::<TransformError>::empty() =~= old(errors)@);
            match drive(layers, parameters, requested) {
                Ok(target) => Ok(MenuEntry::Toggle { name: name.clone(), target }),
                Err(error) => Err(error),
            }
        },
        MenuItemOutline::Button { name, drive: requested } => {
            assert(old(errors)@ + Seq::<TransformError>::empty() =~= old(errors)@);
            match drive(layers, parameters, requested) {
                Ok(target) => Ok(MenuEntry::Button { name: name.clone(), target }),
                Err(error) => Err(error),
            }
        },
        MenuItemOutline::Radial { name, axis } => {
            assert(old(errors)@ + Seq::<TransformError>::empty() =~= old(errors)@);
            match compile_axis(layers, parameters, axis) {
                Ok(axis) => Ok(MenuEntry::Radial { name: name.clone(), axis }),
                Err(error) => Err(error),
            }
        },
        MenuItemOutline::TwoAxis { name, horizontal, vertical } => {
            assert(old(errors)@ + Seq::<TransformError>::empty() =~= old(errors)@);
            match compile_both(layers, parameters, horizontal, vertical) {
                Ok((horizontal, vertical)) => Ok(MenuEntry::TwoAxis { name: name.clone(), horizontal, vertical }),
                Err(error) => Err(error),
            }
        },
        MenuItemOutline::FourAxis { name, up, down, left, right } => {
            assert(old(errors)@ + Seq::<TransformError>::empty() =~= old(errors)@);
            let (up, down) = match compile_both(layers, parameters, up, down) {
                Ok(pair) => pair,
                Err(error) => return Err(error),
            };
            match compile_both(layers, parameters, left, right) {
                Ok((left, right)) => Ok(MenuEntry::FourAxis { name: name.clone(), up, down, left, right }),
                Err(error) => Err(error),
            }
        },
    }
}

/// Compiles the controls of the menu named `owner`. A control that fails is dropped and its
/// error recorded, so every control gets checked; a menu with too many controls is recorded
/// first.
pub fn compile_menu_items(
    layers: &LayerTable,
    parameters: &ParameterTable,
    owner: &String,
    items: &Vec<MenuItemOutline>,
    errors: &mut Vec<TransformError>,
) -> (entries: Vec<MenuEntry>)
    requires
        layers.wf(),
        parameters.wf(),
    ensures
        entries_view(entries@) == menu_outcome(layers.infos(), parameters.entries(), *owner, items@).0,
        final(errors)@ == old(errors)@ + menu_outcome(layers.infos(), parameters.entries(), *owner, items@).1,
    decreases items, 0int,
{
    let ghost infos = layers.infos();
    let ghost entries_in = parameters.entries();
    let ghost all = items@;
    let ghost start = old(errors)@;
    if items.len() > MENU_CAPACITY {
        errors.push(
            TransformError::new(
                TransformErrorKind::MenuTooLarge { name: owner.clone(), count: items.len(), capacity: MENU_CAPACITY },
            ),
        );
    }
    let ghost sized = errors@;
    assert(sized == start + size_errors(*owner, all.len()));
    let mut entries: Vec<MenuEntry> = Vec::new();
    let mut i: usize = 0;
    assert(all.take(0) =~= Seq::<MenuItemOutline>::empty());
    assert(sized + Seq::<TransformError>::empty() =~= sized);
    while i < items.len()
        invariant
            i <= all.len(),
            all == items@,
            layers.wf(),
            parameters.wf(),
            infos == layers.infos(),
            entries_in == parameters.entries(),
            entries_view(entries@) == each_outcome(infos, entries_in, all.take(i as int)).0,
            errors@ == sized + each_outcome(infos, entries_in, all.take(i as int)).1,
        decreases all.len() - i,
    {
        let item = &items[i];
        let ghost front = each_outcome(infos, entries_in, all.take(i as int));
        let ghost outcome = item_outcome(infos, entries_in, *item);
        let ghost before = errors@;
        assert(all.take(i + 1).drop_last() =~= all.take(i as int));
        assert(all.take(i + 1).last() == *item);
        assert(decreases_to!(items => items@[i as int]));
        match compile_item(layers, parameters, item, errors) {
            Ok(entry) => {
                let ghost shown = entries@;
                entries.push(entry);
                assert(entries@.drop_last() =~= shown);
                assert(errors@ =~= sized + (front.1 + outcome.1));
            },
            Err(error) => {
                errors.push(error);
                assert(errors@ =~= sized + (front.1 + outcome.1.push(error)));
            },
        }
        i = i + 1;
    }
    assert(all.take(i as int) =~= all);
    assert(errors@ =~= start + (size_errors(*owner, all.len()) + each_outcome(infos, entries_in, all).1));
    entries
}

/// Compiles the menu block: its controls, under the menu named "root".
pub fn compile_menu(
    layers: &LayerTable,
    parameters: &ParameterTable,
    items: &Vec<MenuItemOutline>,
    errors: &mut Vec<TransformError>,
) -> (entries: Vec<MenuEntry>)
    requires
        layers.wf(),
        parameters.wf(),
    ensures
        exists|root: String|
            root@ == "root"@ && entries_view(entries@) == menu_outcome(layers.infos(), parameters.entries(), root, items@).0
                && final(errors)@ == old(errors)@ + menu_outcome(layers.infos(), parameters.entries(), root, items@).1,
{
    let root = String::from_str("root");
    compile_menu_items(layers, parameters, &root, items, errors)
}

/// How many of `items` fail to compile.
pub open spec fn failed_count(
    layers: Map<Seq<char>, LayerInfo>,
    parameters: Seq<ParameterEntry>,
    items: Seq<MenuItemOutline>,
) -> nat
    decreases items.len(),
{
    if items.len() == 0 {
        0
    } else {
        failed_count(layers, parameters, items.drop_last()) + if item_outcome(layers, parameters, items.last()).0 is Err {
            1nat
        } else {
            0nat
        }
    }
}

/// Every control of a menu is either kept or reported: the controls kept and the controls that
/// failed add up to the controls written, and each failure has an error of its own among the
/// errors recorded.
pub proof fn law_every_control_is_kept_or_reported(
    layers: Map<Seq<char>, LayerInfo>,
    parameters: Seq<ParameterEntry>,
    items: Seq<MenuItemOutline>,
)
    ensures
        each_outcome(layers, parameters, items).0.len() + failed_count(layers, parameters, items) == items.len(),
        each_outcome(layers, parameters, items).1.len() >= failed_count(layers, parameters, items),
    decreases items.len(),
{
    if items.len() > 0 {
        law_every_control_is_kept_or_reported(layers, parameters, items.drop_last());
    }
}

} // verus!
