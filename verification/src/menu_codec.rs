//! The compiled expression menu and how it is written: each control as its tag, its name and
//! its fields, a submenu with the list of its controls.
use vstd::prelude::*;

use crate::animated_wire::{
    decode_wire_value, parse_floats, wire_value_encoding, wire_value_parse, WireValue, WireValueView,
};
use crate::bytes::lemma_chunk;
use crate::controller::MenuAxis;
use crate::parameters::ParameterRef;
use crate::reference_checks::ParameterTypes;
use crate::resolution::Resolved;
use crate::target_codec::{lift, then, TargetFailure};
use crate::value::AnimatedValueType;
use crate::wire::{
    length_bytes, length_encoding, parse_string, parse_u32, parse_u8, Decode, DecodeError, Encode, EncodeError, Reader, WireFormat,
    Writer,
};

verus! {

/// A compiled control of the expression menu.
#[derive(Debug, PartialEq)]
pub enum MenuItem {
    SubMenu { name: String, items: Vec<MenuItem> },
    Toggle { name: String, parameter: ParameterRef, value: WireValue<()> },
    Button { name: String, parameter: ParameterRef, value: WireValue<()> },
    Radial { name: String, axis: MenuAxis },
    TwoAxis { name: String, horizontal: MenuAxis, vertical: MenuAxis },
    FourAxis { name: String, up: MenuAxis, down: MenuAxis, left: MenuAxis, right: MenuAxis },
}

impl MenuItem {
    /// How many controls one menu can hold.
    pub const CAPACITY: usize = 8;

    pub open spec fn spec_name(&self) -> String {
        match self {
            MenuItem::SubMenu { name, .. } => *name,
            MenuItem::Toggle { name, .. } => *name,
            MenuItem::Button { name, .. } => *name,
            MenuItem::Radial { name, .. } => *name,
            MenuItem::TwoAxis { name, .. } => *name,
            MenuItem::FourAxis { name, .. } => *name,
        }
    }

    /// The label of the control.
    pub fn name(&self) -> (name: &str)
        ensures
            name@ == self.spec_name()@,
    {
        match self {
            MenuItem::SubMenu { name, .. } => name.as_str(),
            MenuItem::Toggle { name, .. } => name.as_str(),
            MenuItem::Button { name, .. } => name.as_str(),
            MenuItem::Radial { name, .. } => name.as_str(),
            MenuItem::TwoAxis { name, .. } => name.as_str(),
            MenuItem::FourAxis { name, .. } => name.as_str(),
        }
    }
}

/// A menu axis as a value: its parameter's name and type, and the labels of its ends.
pub type AxisView = (Seq<char>, crate::value::AnimatedValueType, Option<Seq<char>>, Option<Seq<char>>);

pub open spec fn axis_view(axis: MenuAxis) -> AxisView {
    (axis.parameter.value@, axis.parameter.context, axis.positive.deep_view(), axis.negative.deep_view())
}

/// A `MenuItem` as a value, with the controls of a submenu as a sequence.
pub enum MenuItemView {
    SubMenu(Seq<char>, Seq<MenuItemView>),
    Toggle(Seq<char>, (Seq<char>, crate::value::AnimatedValueType), WireValueView<()>),
    Button(Seq<char>, (Seq<char>, crate::value::AnimatedValueType), WireValueView<()>),
    Radial(Seq<char>, AxisView),
    TwoAxis(Seq<char>, AxisView, AxisView),
    FourAxis(Seq<char>, AxisView, AxisView, AxisView, AxisView),
}

/// A control as a value.
pub open spec fn item_view(item: MenuItem) -> MenuItemView
    decreases item, 0int,
{
    match item {
        MenuItem::SubMenu { name, items } => MenuItemView::SubMenu(name@, items_view(items@)),
        MenuItem::Toggle { name, parameter, value } => MenuItemView::Toggle(
            name@,
            (parameter.value@, parameter.context),
            value.deep_view(),
        ),
        MenuItem::Button { name, parameter, value } => MenuItemView::Button(
            name@,
            (parameter.value@, parameter.context),
            value.deep_view(),
        ),
        MenuItem::Radial { name, axis } => MenuItemView::Radial(name@, axis_view(axis)),
        MenuItem::TwoAxis { name, horizontal, vertical } => MenuItemView::TwoAxis(
            name@,
            axis_view(horizontal),
            axis_view(vertical),
        ),
        MenuItem::FourAxis { name, up, down, left, right } => MenuItemView::FourAxis(
            name@,
            axis_view(up),
            axis_view(down),
            axis_view(left),
            axis_view(right),
        ),
    }
}

/// Controls as values, in order.
pub open spec fn items_view(items: Seq<MenuItem>) -> Seq<MenuItemView>
    decreases items, 0int,
{
    if items.len() == 0 {
        seq![]
    } else {
        items_view(items.drop_last()).push(item_view(items.last()))
    }
}

/// The bytes of an axis: the name of its parameter, then the labels of its ends.
pub open spec fn axis_encoding(axis: AxisView) -> Result<Seq<u8>, EncodeError> {
    <MenuAxis as Encode>::encoding((axis.0, axis.2, axis.3))
}

/// The bytes of a control: its tag, its name, and its fields in order.
pub open spec fn item_encoding(item: MenuItemView) -> Result<Seq<u8>, EncodeError>
    decreases item, 0int,
{
    match item {
        MenuItemView::SubMenu(name, items) => then(
            then(Ok(seq![0u8]), <String as Encode>::encoding(name)),
            then(length_encoding("list length", items.len()), items_encoding(items)),
        ),
        MenuItemView::Toggle(name, parameter, value) => then(
            then(then(Ok(seq![1u8]), <String as Encode>::encoding(name)), <String as Encode>::encoding(parameter.0)),
            wire_value_encoding::<()>(value),
        ),
        MenuItemView::Button(name, parameter, value) => then(
            then(then(Ok(seq![2u8]), <String as Encode>::encoding(name)), <String as Encode>::encoding(parameter.0)),
            wire_value_encoding::<()>(value),
        ),
        MenuItemView::Radial(name, axis) => then(
            then(Ok(seq![3u8]), <String as Encode>::encoding(name)),
            axis_encoding(axis),
        ),
        MenuItemView::TwoAxis(name, horizontal, vertical) => then(
            then(then(Ok(seq![4u8]), <String as Encode>::encoding(name)), axis_encoding(horizontal)),
            axis_encoding(vertical),
        ),
        MenuItemView::FourAxis(name, up, down, left, right) => then(
            then(
                then(then(then(Ok(seq![5u8]), <String as Encode>::encoding(name)), axis_encoding(up)), axis_encoding(down)),
                axis_encoding(left),
            ),
            axis_encoding(right),
        ),
    }
}

/// The bytes of the controls, one after the other.
pub open spec fn items_encoding(items: Seq<MenuItemView>) -> Result<Seq<u8>, EncodeError>
    decreases items, 0int,
{
    if items.len() == 0 {
        Ok(seq![])
    } else {
        then(items_encoding(items.drop_last()), item_encoding(items.last()))
    }
}

proof fn lemma_items_view_len(items: Seq<MenuItem>)
    ensures
        items_view(items).len() == items.len(),
    decreases items.len(),
{
    if items.len() > 0 {
        lemma_items_view_len(items.drop_last());
    }
}

proof fn lemma_items_encoding_error_persists(items: Seq<MenuItemView>, k: int)
    requires
        0 <= k <= items.len(),
        items_encoding(items.take(k)) is Err,
    ensures
        items_encoding(items) == items_encoding(items.take(k)),
    decreases items.len(),
{
    if k == items.len() {
        assert(items.take(k) =~= items);
    } else {
        let front = items.drop_last();
        assert(front.take(k) =~= items.take(k));
        lemma_items_encoding_error_persists(front, k);
    }
}

fn write_head(writer: &mut Writer, tag: u8, name: &String) -> (result: Result<(), EncodeError>)
    ensures
        crate::wire::encoded(
            then(Ok(seq![tag]), <String as Encode>::encoding(name@)),
            result,
            old(writer)@,
            final(writer)@,
        ),
{
    writer.u8(tag);
    writer.string(name.as_str())?;
    assert(writer@ =~= old(writer)@ + (seq![tag] + <String as Encode>::encoding(name@)->Ok_0));
    Ok(())
}

fn write_submenu(name: &String, items: &Vec<MenuItem>, writer: &mut Writer) -> (result: Result<(), EncodeError>)
    ensures
        crate::wire::encoded(
            item_encoding(MenuItemView::SubMenu(name@, items_view(items@))),
            result,
            old(writer)@,
            final(writer)@,
        ),
    decreases items, 1int,
{
    let ghost before = writer@;
    write_head(writer, 0, name)?;
    let ghost headed = writer@;
    proof {
        lemma_items_view_len(items@);
    }
    writer.length("list length", items.len())?;
    let ghost counted = writer@;
    write_items(items, writer)?;
    assert(writer@ =~= before + item_encoding(MenuItemView::SubMenu(name@, items_view(items@)))->Ok_0);
    Ok(())
}

fn write_value_control(
    writer: &mut Writer,
    tag: u8,
    name: &String,
    parameter: &ParameterRef,
    value: &WireValue<()>,
) -> (result: Result<(), EncodeError>)
    ensures
        crate::wire::encoded(
            then(
                then(then(Ok(seq![tag]), <String as Encode>::encoding(name@)), <String as Encode>::encoding(parameter.value@)),
                wire_value_encoding::<()>(value.deep_view()),
            ),
            result,
            old(writer)@,
            final(writer)@,
        ),
{
    let ghost before = writer@;
    write_head(writer, tag, name)?;
    parameter.encode(writer)?;
    value.encode(writer)?;
    assert(writer@ =~= before + then(
        then(then(Ok(seq![tag]), <String as Encode>::encoding(name@)), <String as Encode>::encoding(parameter.value@)),
        wire_value_encoding::<()>(value.deep_view()),
    )->Ok_0);
    Ok(())
}

fn write_axes(writer: &mut Writer, tag: u8, name: &String, axes: &[&MenuAxis]) -> (result: Result<(), EncodeError>)
    ensures
        crate::wire::encoded(
            axes_encoding(then(Ok(seq![tag]), <String as Encode>::encoding(name@)), axes@.map_values(|axis: &MenuAxis| axis_view(*axis))),
            result,
            old(writer)@,
            final(writer)@,
        ),
{
    let ghost before = writer@;
    let ghost views = axes@.map_values(|axis: &MenuAxis| axis_view(*axis));
    let ghost head = then(Ok(seq![tag]), <String as Encode>::encoding(name@));
    match write_head(writer, tag, name) {
        Ok(()) => {},
        Err(e) => {
            proof {
                lemma_failed_head(head, views);
            }
            return Err(e);
        },
    }
    let mut i: usize = 0;
    assert(views.take(0) =~= Seq::<AxisView>::empty());
    while i < axes.len()
        invariant
            i <= axes@.len(),
            before == old(writer)@,
            views == axes@.map_values(|axis: &MenuAxis| axis_view(*axis)),
            head == then(Ok(seq![tag]), <String as Encode>::encoding(name@)),
            axes_encoding(head, views.take(i as int)) is Ok,
            writer@ == before + axes_encoding(head, views.take(i as int))->Ok_0,
        decreases axes@.len() - i,
    {
        assert(views.take(i + 1).drop_last() =~= views.take(i as int));
        assert(views.take(i + 1).last() == axis_view(*axes@[i as int]));
        match axes[i].encode(writer) {
            Ok(()) => {},
            Err(e) => {
                proof {
                    lemma_axes_error_persists(head, views, i + 1);
                }
                return Err(e);
            },
        }
        assert(writer@ =~= before + axes_encoding(head, views.take(i + 1))->Ok_0);
        i = i + 1;
    }
    assert(views.take(i as int) =~= views);
    Ok(())
}

/// `head`, then each axis in turn, or the first part that fails.
pub open spec fn axes_encoding(head: Result<Seq<u8>, EncodeError>, axes: Seq<AxisView>) -> Result<Seq<u8>, EncodeError>
    decreases axes.len(),
{
    if axes.len() == 0 {
        head
    } else {
        then(axes_encoding(head, axes.drop_last()), axis_encoding(axes.last()))
    }
}

proof fn lemma_failed_head(head: Result<Seq<u8>, EncodeError>, axes: Seq<AxisView>)
    requires
        head is Err,
    ensures
        axes_encoding(head, axes) == head,
    decreases axes.len(),
{
    if axes.len() > 0 {
        lemma_failed_head(head, axes.drop_last());
    }
}

proof fn lemma_axes_error_persists(head: Result<Seq<u8>, EncodeError>, axes: Seq<AxisView>, k: int)
    requires
        0 <= k <= axes.len(),
        axes_encoding(head, axes.take(k)) is Err,
    ensures
        axes_encoding(head, axes) == axes_encoding(head, axes.take(k)),
    decreases axes.len(),
{
    if k == axes.len() {
        assert(axes.take(k) =~= axes);
    } else {
        let front = axes.drop_last();
        assert(front.take(k) =~= axes.take(k));
        lemma_axes_error_persists(head, front, k);
    }
}

fn write_radial(writer: &mut Writer, name: &String, axis: &MenuAxis) -> (result: Result<(), EncodeError>)
    ensures
        crate::wire::encoded(
            item_encoding(MenuItemView::Radial(name@, axis_view(*axis))),
            result,
            old(writer)@,
            final(writer)@,
        ),
{
    let axes = [axis];
    proof {
        let views = axes@.map_values(|axis: &MenuAxis| axis_view(*axis));
        let head = then(Ok(seq![3u8]), <String as Encode>::encoding(name@));
        assert(views =~= seq![axis_view(*axis)]);
        assert(views.drop_last() =~= Seq::<AxisView>::empty());
        assert(axes_encoding(head, views.drop_last()) == head);
        assert(axes_encoding(head, views) == then(head, axis_encoding(axis_view(*axis))));
    }
    write_axes(writer, 3, name, &axes)
}

fn write_two_axis(writer: &mut Writer, name: &String, horizontal: &MenuAxis, vertical: &MenuAxis) -> (result: Result<
    (),
    EncodeError,
>)
    ensures
        crate::wire::encoded(
            item_encoding(MenuItemView::TwoAxis(name@, axis_view(*horizontal), axis_view(*vertical))),
            result,
            old(writer)@,
            final(writer)@,
        ),
{
    let axes = [horizontal, vertical];
    proof {
        let views = axes@.map_values(|axis: &MenuAxis| axis_view(*axis));
        let head = then(Ok(seq![4u8]), <String as Encode>::encoding(name@));
        let (h, v) = (axis_view(*horizontal), axis_view(*vertical));
        assert(views =~= seq![h, v]);
        assert(views.drop_last() =~= seq![h]);
        assert(views.drop_last().drop_last() =~= Seq::<AxisView>::empty());
        assert(axes_encoding(head, seq![h].drop_last()) == head);
        assert(axes_encoding(head, seq![h]) == then(head, axis_encoding(h)));
        assert(axes_encoding(head, views) == then(then(head, axis_encoding(h)), axis_encoding(v)));
    }
    write_axes(writer, 4, name, &axes)
}

#[verifier::rlimit(30)]
fn write_four_axis(
    writer: &mut Writer,
    name: &String,
    up: &MenuAxis,
    down: &MenuAxis,
    left: &MenuAxis,
    right: &MenuAxis,
) -> (result: Result<(), EncodeError>)
    ensures
        crate::wire::encoded(
            item_encoding(
                MenuItemView::FourAxis(name@, axis_view(*up), axis_view(*down), axis_view(*left), axis_view(*right)),
            ),
            result,
            old(writer)@,
            final(writer)@,
        ),
{
    let axes = [up, down, left, right];
    proof {
        let views = axes@.map_values(|axis: &MenuAxis| axis_view(*axis));
        let (u, d, l, r) = (axis_view(*up), axis_view(*down), axis_view(*left), axis_view(*right));
        assert(views =~= seq![u, d, l, r]);
        assert(views.drop_last() =~= seq![u, d, l]);
        assert(views.drop_last().drop_last() =~= seq![u, d]);
        assert(views.drop_last().drop_last().drop_last() =~= seq![u]);
        assert(views.drop_last().drop_last().drop_last().drop_last() =~= Seq::<AxisView>::empty());
        let head = then(Ok(seq![5u8]), <String as Encode>::encoding(name@));
        assert(axes_encoding(head, seq![u].drop_last()) == head);
        assert(axes_encoding(head, seq![u]) == then(head, axis_encoding(u)));
        assert(seq![u, d].drop_last() =~= seq![u]);
        assert(axes_encoding(head, seq![u, d]) == then(then(head, axis_encoding(u)), axis_encoding(d)));
        assert(seq![u, d, l].drop_last() =~= seq![u, d]);
        assert(axes_encoding(head, seq![u, d, l]) == then(
            then(then(head, axis_encoding(u)), axis_encoding(d)),
            axis_encoding(l),
        ));
        assert(axes_encoding(head, views) == then(
            then(then(then(head, axis_encoding(u)), axis_encoding(d)), axis_encoding(l)),
            axis_encoding(r),
        ));
    }
    write_axes(writer, 5, name, &axes)
}

fn write_item(item: &MenuItem, writer: &mut Writer) -> (result: Result<(), EncodeError>)
    ensures
        crate::wire::encoded(item_encoding(item_view(*item)), result, old(writer)@, final(writer)@),
    decreases item, 2int,
{
    match item {
        MenuItem::SubMenu { name, items } => {
            assert(item_view(*item) == MenuItemView::SubMenu(name@, items_view(items@)));
            write_submenu(name, items, writer)
        },
        MenuItem::Toggle { name, parameter, value } => write_value_control(writer, 1, name, parameter, value),
        MenuItem::Button { name, parameter, value } => write_value_control(writer, 2, name, parameter, value),
        MenuItem::Radial { name, axis } => write_radial(writer, name, axis),
        MenuItem::TwoAxis { name, horizontal, vertical } => write_two_axis(writer, name, horizontal, vertical),
        MenuItem::FourAxis { name, up, down, left, right } => write_four_axis(writer, name, up, down, left, right),
    }
}

fn write_items(items: &Vec<MenuItem>, writer: &mut Writer) -> (result: Result<(), EncodeError>)
    ensures
        crate::wire::encoded(items_encoding(items_view(items@)), result, old(writer)@, final(writer)@),
    decreases items, 0int,
{
    let ghost start = writer@;
    let ghost all = items_view(items@);
    let mut i: usize = 0;
    assert(items@.take(0) =~= Seq::<MenuItem>::empty());
    assert(start + Seq::<u8>::empty() =~= start);
    while i < items.len()
        invariant
            i <= items@.len(),
            start == old(writer)@,
            all == items_view(items@),
            items_encoding(items_view(items@.take(i as int))) is Ok,
            writer@ == start + items_encoding(items_view(items@.take(i as int)))->Ok_0,
        decreases items@.len() - i,
    {
        let ghost front = items@.take(i as int);
        assert(items@.take(i + 1).drop_last() =~= front);
        assert(items@.take(i + 1).last() == items@[i as int]);
        assert(items_view(items@.take(i + 1)).drop_last() =~= items_view(front));
        assert(decreases_to!(items => items@[i as int]));
        match write_item(&items[i], writer) {
            Ok(()) => {},
            Err(e) => {
                proof {
                    lemma_items_view_len(items@);
                    assert(items_view(items@.take(i + 1)) =~= all.take(i + 1)) by {
                        lemma_items_view_prefix(items@, i + 1);
                    }
                    lemma_items_encoding_error_persists(all, i + 1);
                }
                return Err(e);
            },
        }
        i = i + 1;
    }
    assert(items@.take(i as int) =~= items@);
    Ok(())
}

proof fn lemma_items_view_prefix(items: Seq<MenuItem>, k: int)
    requires
        0 <= k <= items.len(),
    ensures
        items_view(items.take(k)) == items_view(items).take(k),
    decreases items.len(),
{
    lemma_items_view_len(items);
    lemma_items_view_len(items.take(k));
    if k == items.len() {
        assert(items.take(k) =~= items);
        assert(items_view(items).take(k) =~= items_view(items));
    } else {
        let front = items.drop_last();
        assert(front.take(k) =~= items.take(k));
        lemma_items_view_prefix(front, k);
        lemma_items_view_len(front);
        assert(items_view(items).take(k) =~= items_view(front).take(k));
    }
}

impl DeepView for MenuItem {
    type V = MenuItemView;

    open spec fn deep_view(&self) -> MenuItemView {
        item_view(*self)
    }
}

/// A control is written as its tag, its name and its fields; a submenu as the list of its
/// controls.
impl Encode for MenuItem {
    open spec fn encoding(value: MenuItemView) -> Result<Seq<u8>, EncodeError> {
        item_encoding(value)
    }

    fn encode(&self, writer: &mut Writer) -> (result: Result<(), EncodeError>) {
        write_item(self, writer)
    }
}

/* ------------------------------------------------------------------------------------------- *
 * Reading the menu back
 * ------------------------------------------------------------------------------------------- */
/// How many bytes are left to read from `pos` on.
pub open spec fn unread(data: Seq<u8>, pos: int) -> nat {
    if pos < data.len() {
        (data.len() - pos) as nat
    } else {
        0
    }
}

/// What reading a parameter at `pos` yields: its name, which must be in `scope`, with the type
/// it has there.
pub open spec fn parameter_parse(data: Seq<u8>, pos: int, scope: Map<Seq<char>, AnimatedValueType>) -> Result<
    ((Seq<char>, AnimatedValueType), int),
    TargetFailure,
> {
    match lift(parse_string(data, pos)) {
        Err(e) => Err(e),
        Ok((name, end)) => if scope.contains_key(name) {
            Ok(((name, scope[name]), end))
        } else {
            Err(TargetFailure::UnknownParameter(name))
        },
    }
}

/// What reading an axis at `pos` yields: its parameter, then the labels of its ends.
pub open spec fn axis_parse(data: Seq<u8>, pos: int, scope: Map<Seq<char>, AnimatedValueType>) -> Result<
    (AxisView, int),
    TargetFailure,
> {
    match parameter_parse(data, pos, scope) {
        Err(e) => Err(e),
        Ok((parameter, next)) => match lift(<Option<String> as Decode>::parse(data, next)) {
            Err(e) => Err(e),
            Ok((positive, after)) => match lift(<Option<String> as Decode>::parse(data, after)) {
                Err(e) => Err(e),
                Ok((negative, end)) => Ok(((parameter.0, parameter.1, positive, negative), end)),
            },
        },
    }
}

/// `count` axes read one after another from `pos`, or the first failure among them.
pub open spec fn axes_parse(data: Seq<u8>, pos: int, scope: Map<Seq<char>, AnimatedValueType>, count: nat) -> Result<
    (Seq<AxisView>, int),
    TargetFailure,
>
    decreases count,
{
    if count == 0 {
        Ok((seq![], pos))
    } else {
        match axes_parse(data, pos, scope, (count - 1) as nat) {
            Err(e) => Err(e),
            Ok((front, next)) => match axis_parse(data, next, scope) {
                Err(e) => Err(e),
                Ok((axis, end)) => Ok((front.push(axis), end)),
            },
        }
    }
}

/// What reading a control at `pos` yields, with the parameters in `scope`: its tag, its name, and
/// the fields of its kind.
pub open spec fn item_parse(data: Seq<u8>, pos: int, scope: Map<Seq<char>, AnimatedValueType>) -> Result<
    (MenuItemView, int),
    TargetFailure,
>
    decreases unread(data, pos), 0nat,
{
    match lift(parse_u8(data, pos)) {
        Err(e) => Err(e),
        Ok((tag, start)) => if tag > 5 {
            Err(TargetFailure::Decode(DecodeError::InvalidDiscriminator { of_type: "MenuItem", value: tag }))
        } else {
            match lift(parse_string(data, start)) {
                Err(e) => Err(e),
                Ok((name, next)) => if tag == 0 {
                    match lift(parse_u32(data, next)) {
                        Err(e) => Err(e),
                        Ok((count, from)) => match controls_parse(data, from, scope, count as nat) {
                            Err(e) => Err(e),
                            Ok((items, end)) => Ok((MenuItemView::SubMenu(name, items), end)),
                        },
                    }
                } else if tag <= 2 {
                    value_control_parse(data, next, scope, tag, name)
                } else {
                    axis_control_parse(data, next, scope, tag, name)
                }
            }
        }
    }
}

/// The rest of a toggle (tag 1) or a button (tag 2) named `name`, read at `pos`: its parameter
/// and the value it sets.
pub open spec fn value_control_parse(
    data: Seq<u8>,
    pos: int,
    scope: Map<Seq<char>, AnimatedValueType>,
    tag: u8,
    name: Seq<char>,
) -> Result<(MenuItemView, int), TargetFailure> {
    match parameter_parse(data, pos, scope) {
        Err(e) => Err(e),
        Ok((parameter, after)) => match lift(wire_value_parse::<()>(data, after, 0)) {
            Err(e) => Err(e),
            Ok((value, end)) => Ok(
                (
                    if tag == 1 {
                        MenuItemView::Toggle(name, parameter, value)
                    } else {
                        MenuItemView::Button(name, parameter, value)
                    },
                    end,
                ),
            ),
        },
    }
}

/// The rest of a puppet named `name`, read at `pos`: one axis for a radial puppet (tag 3), two
/// for a two-axis one (tag 4), four for a four-axis one (tag 5).
pub open spec fn axis_control_parse(
    data: Seq<u8>,
    pos: int,
    scope: Map<Seq<char>, AnimatedValueType>,
    tag: u8,
    name: Seq<char>,
) -> Result<(MenuItemView, int), TargetFailure> {
    let count: nat = if tag == 3 {
        1
    } else if tag == 4 {
        2
    } else {
        4
    };
    match axes_parse(data, pos, scope, count) {
        Err(e) => Err(e),
        Ok((axes, end)) => Ok(
            (
                if tag == 3 {
                    MenuItemView::Radial(name, axes[0])
                } else if tag == 4 {
                    MenuItemView::TwoAxis(name, axes[0], axes[1])
                } else {
                    MenuItemView::FourAxis(name, axes[0], axes[1], axes[2], axes[3])
                },
                end,
            ),
        ),
    }
}

/// `count` controls read one after another from `pos`, or the first failure among them. A read
/// never ends before it starts, so `at` is where the previous control ended; the definition
/// says so in a form that lets it terminate on the unread input alone.
pub open spec fn controls_parse(
    data: Seq<u8>,
    pos: int,
    scope: Map<Seq<char>, AnimatedValueType>,
    count: nat,
) -> Result<(Seq<MenuItemView>, int), TargetFailure>
    decreases unread(data, pos), count + 1,
{
    if count == 0 {
        Ok((seq![], pos))
    } else {
        match controls_parse(data, pos, scope, (count - 1) as nat) {
            Err(e) => Err(e),
            Ok((front, next)) => {
                let at = if next < pos {
                    pos
                } else {
                    next
                };
                match item_parse(data, at, scope) {
                    Err(e) => Err(e),
                    Ok((item, end)) => Ok((front.push(item), end)),
                }
            },
        }
    }
}

/// What reading a whole menu at `pos` yields: the number of its controls, then each of them.
pub open spec fn menu_parse(data: Seq<u8>, pos: int, scope: Map<Seq<char>, AnimatedValueType>) -> Result<
    (Seq<MenuItemView>, int),
    TargetFailure,
> {
    match lift(parse_u32(data, pos)) {
        Err(e) => Err(e),
        Ok((count, start)) => controls_parse(data, start, scope, count as nat),
    }
}

/// How a read that failed with `failure` reports it.
pub open spec fn failed<T>(failure: TargetFailure, result: Result<T, DecodeError>) -> bool {
    match failure {
        TargetFailure::Decode(e) => result == Err::<T, DecodeError>(e),
        TargetFailure::UnknownParameter(name) => result matches Err(DecodeError::UnknownParameter(found))
            && found@ == name,
    }
}

proof fn lemma_floats_end(data: Seq<u8>, pos: int, count: nat)
    ensures
        parse_floats(data, pos, count) matches Ok((_, end)) ==> end == pos + 8 * count,
    decreases count,
{
    if count > 0 {
        lemma_floats_end(data, pos, (count - 1) as nat);
    }
}

proof fn lemma_value_advances(data: Seq<u8>, pos: int)
    ensures
        wire_value_parse::<()>(data, pos, 0) matches Ok((_, end)) ==> pos < end,
{
    lemma_floats_end(data, pos + 1, 1);
    lemma_floats_end(data, pos + 1, 2);
    lemma_floats_end(data, pos + 1, 3);
    lemma_floats_end(data, pos + 1, 4);
}

proof fn lemma_axes_advance(data: Seq<u8>, pos: int, scope: Map<Seq<char>, AnimatedValueType>, count: nat)
    ensures
        axes_parse(data, pos, scope, count) matches Ok((axes, end)) ==> pos <= end && axes.len() == count,
    decreases count,
{
    if count > 0 {
        lemma_axes_advance(data, pos, scope, (count - 1) as nat);
    }
}

/// Reading a control, when it succeeds, moves past at least its tag.
proof fn lemma_item_advances(data: Seq<u8>, pos: int, scope: Map<Seq<char>, AnimatedValueType>)
    ensures
        item_parse(data, pos, scope) matches Ok((_, end)) ==> pos < end,
    decreases unread(data, pos), 0nat,
{
    if let Ok((tag, start)) = parse_u8(data, pos) {
        if let Ok((name, next)) = parse_string(data, start) {
            if tag == 0 {
                if let Ok((count, from)) = parse_u32(data, next) {
                    lemma_controls_advance(data, from, scope, count as nat);
                }
            } else if tag <= 2 {
                if let Ok((parameter, after)) = parameter_parse(data, next, scope) {
                    lemma_value_advances(data, after);
                }
            } else {
                lemma_axes_advance(data, next, scope, 1);
                lemma_axes_advance(data, next, scope, 2);
                lemma_axes_advance(data, next, scope, 4);
            }
        }
    }
}

proof fn lemma_controls_advance(data: Seq<u8>, pos: int, scope: Map<Seq<char>, AnimatedValueType>, count: nat)
    ensures
        controls_parse(data, pos, scope, count) matches Ok((items, end)) ==> pos <= end && items.len() == count,
    decreases unread(data, pos), count + 1,
{
    if count > 0 {
        lemma_controls_advance(data, pos, scope, (count - 1) as nat);
        if let Ok((front, next)) = controls_parse(data, pos, scope, (count - 1) as nat) {
            lemma_item_advances(data, next, scope);
        }
    }
}

proof fn lemma_controls_error_persists(
    data: Seq<u8>,
    pos: int,
    scope: Map<Seq<char>, AnimatedValueType>,
    done: nat,
    count: nat,
)
    requires
        done <= count,
        controls_parse(data, pos, scope, done) is Err,
    ensures
        controls_parse(data, pos, scope, count) == controls_parse(data, pos, scope, done),
    decreases count - done,
{
    if done < count {
        lemma_controls_error_persists(data, pos, scope, done, (count - 1) as nat);
    }
}

fn decode_parameter(reader: &mut Reader<'_>, scope: &ParameterTypes) -> (result: Result<ParameterRef, DecodeError>)
    requires
        scope.wf(),
    ensures
        final(reader).data() == old(reader).data(),
        match parameter_parse(old(reader).data(), old(reader).pos(), scope.types()) {
            Ok((view, end)) => result matches Ok(parameter) && (parameter.value@, parameter.context) == view
                && final(reader).pos() == end,
            Err(failure) => failed(failure, result),
        },
{
    let name = reader.string()?;
    match scope.get(name.as_str()) {
        Some(value_type) => Ok(Resolved::new(name, value_type)),
        None => Err(DecodeError::UnknownParameter(name)),
    }
}

/// Reads a menu axis against the parameters in `scope`.
pub fn decode_axis(reader: &mut Reader<'_>, scope: &ParameterTypes) -> (result: Result<MenuAxis, DecodeError>)
    requires
        scope.wf(),
    ensures
        final(reader).data() == old(reader).data(),
        match axis_parse(old(reader).data(), old(reader).pos(), scope.types()) {
            Ok((view, end)) => result matches Ok(axis) && axis_view(axis) == view && final(reader).pos() == end,
            Err(failure) => failed(failure, result),
        },
{
    let parameter = decode_parameter(reader, scope)?;
    let positive: Option<String> = reader.decode()?;
    let negative: Option<String> = reader.decode()?;
    Ok(MenuAxis { parameter, positive, negative })
}

/// Reads a control against the parameters in `scope`; a submenu reads its controls in turn.
#[verifier::spinoff_prover]
#[verifier::rlimit(30)]
pub fn decode_menu_item(reader: &mut Reader<'_>, scope: &ParameterTypes) -> (result: Result<MenuItem, DecodeError>)
    requires
        scope.wf(),
    ensures
        final(reader).data() == old(reader).data(),
        match item_parse(old(reader).data(), old(reader).pos(), scope.types()) {
            Ok((view, end)) => result matches Ok(item) && item_view(item) == view && final(reader).pos() == end,
            Err(failure) => failed(failure, result),
        },
    decreases unread(old(reader).data(), old(reader).pos()), 0nat,
{
    proof {
        reveal_with_fuel(axes_parse, 5);
    }
    let tag = reader.u8()?;
    if tag > 5 {
        return Err(DecodeError::InvalidDiscriminator { of_type: "MenuItem", value: tag });
    }
    let name = reader.string()?;
    if tag == 0 {
        let count = reader.length("list length")?;
        let items = decode_controls(reader, scope, count)?;
        return Ok(MenuItem::SubMenu { name, items });
    }
    if tag <= 2 {
        let parameter = decode_parameter(reader, scope)?;
        let value = decode_wire_value::<()>(reader, 0)?;
        return Ok(
            if tag == 1 {
                MenuItem::Toggle { name, parameter, value }
            } else {
                MenuItem::Button { name, parameter, value }
            },
        );
    }
    let first = decode_axis(reader, scope)?;
    if tag == 3 {
        return Ok(MenuItem::Radial { name, axis: first });
    }
    let second = decode_axis(reader, scope)?;
    if tag == 4 {
        return Ok(MenuItem::TwoAxis { name, horizontal: first, vertical: second });
    }
    let third = decode_axis(reader, scope)?;
    let fourth = decode_axis(reader, scope)?;
    Ok(MenuItem::FourAxis { name, up: first, down: second, left: third, right: fourth })
}

fn decode_controls(reader: &mut Reader<'_>, scope: &ParameterTypes, count: usize) -> (result: Result<
    Vec<MenuItem>,
    DecodeError,
>)
    requires
        scope.wf(),
    ensures
        final(reader).data() == old(reader).data(),
        match controls_parse(old(reader).data(), old(reader).pos(), scope.types(), count as nat) {
            Ok((views, end)) => result matches Ok(items) && items_view(items@) == views && final(reader).pos()
                == end,
            Err(failure) => failed(failure, result),
        },
    decreases unread(old(reader).data(), old(reader).pos()), 1nat,
{
    let ghost data = reader.data();
    let ghost start = reader.pos();
    let mut items: Vec<MenuItem> = Vec::new();
    let mut i: usize = 0;
    while i < count
        invariant
            i <= count,
            scope.wf(),
            reader.data() == data,
            data == old(reader).data(),
            start == old(reader).pos(),
            start <= reader.pos(),
            controls_parse(data, start, scope.types(), i as nat) == Ok::<_, TargetFailure>(
                (items_view(items@), reader.pos()),
            ),
        decreases count - i,
    {
        let ghost front = items@;
        let ghost here = reader.pos();
        match decode_menu_item(reader, scope) {
            Ok(item) => {
                items.push(item);
                proof {
                    assert(items@.drop_last() =~= front);
                    lemma_item_advances(data, here, scope.types());
                }
            },
            Err(e) => {
                proof {
                    lemma_controls_error_persists(data, start, scope.types(), (i + 1) as nat, count as nat);
                }
                return Err(e);
            },
        }
        i = i + 1;
    }
    Ok(items)
}

/// Reads a whole menu against the parameters in `scope`: the number of its controls, then each
/// of them.
pub fn decode_menu(reader: &mut Reader<'_>, scope: &ParameterTypes) -> (result: Result<Vec<MenuItem>, DecodeError>)
    requires
        scope.wf(),
    ensures
        final(reader).data() == old(reader).data(),
        match menu_parse(old(reader).data(), old(reader).pos(), scope.types()) {
            Ok((views, end)) => result matches Ok(items) && items_view(items@) == views && final(reader).pos()
                == end,
            Err(failure) => failed(failure, result),
        },
{
    let count = reader.length("list length")?;
    decode_controls(reader, scope, count)
}

/* ------------------------------------------------------------------------------------------- *
 * Reading back what was written
 * ------------------------------------------------------------------------------------------- */
/// The parameter of an axis is in `scope`, with the type it was resolved to.
pub open spec fn axis_in_scope(axis: AxisView, scope: Map<Seq<char>, AnimatedValueType>) -> bool {
    scope.contains_key(axis.0) && scope[axis.0] == axis.1
}

/// Every parameter a control names, in any submenu below it too, is in `scope` with the type
/// it was resolved to.
pub open spec fn item_in_scope(item: MenuItemView, scope: Map<Seq<char>, AnimatedValueType>) -> bool
    decreases item, 0int,
{
    match item {
        MenuItemView::SubMenu(_, items) => controls_in_scope(items, scope),
        MenuItemView::Toggle(_, parameter, _) => scope.contains_key(parameter.0) && scope[parameter.0]
            == parameter.1,
        MenuItemView::Button(_, parameter, _) => scope.contains_key(parameter.0) && scope[parameter.0]
            == parameter.1,
        MenuItemView::Radial(_, axis) => axis_in_scope(axis, scope),
        MenuItemView::TwoAxis(_, horizontal, vertical) => axis_in_scope(horizontal, scope) && axis_in_scope(
            vertical,
            scope,
        ),
        MenuItemView::FourAxis(_, up, down, left, right) => axis_in_scope(up, scope) && axis_in_scope(down, scope)
            && axis_in_scope(left, scope) && axis_in_scope(right, scope),
    }
}

/// Every control of a list is in `scope`.
pub open spec fn controls_in_scope(items: Seq<MenuItemView>, scope: Map<Seq<char>, AnimatedValueType>) -> bool
    decreases items, 0int,
{
    if items.len() == 0 {
        true
    } else {
        controls_in_scope(items.drop_last(), scope) && item_in_scope(items.last(), scope)
    }
}

proof fn lemma_tag(data: Seq<u8>, pos: int, whole: Seq<u8>, tag: u8)
    requires
        0 <= pos,
        1 <= whole.len(),
        whole[0] == tag,
        pos + whole.len() <= data.len(),
        data.subrange(pos, pos + whole.len()) == whole,
    ensures
        parse_u8(data, pos) == Ok::<(u8, int), DecodeError>((tag, pos + 1)),
{
    assert(data.subrange(pos, pos + whole.len())[0] == data[pos]);
    assert(data.subrange(pos, pos + 1)[0] == data[pos]);
}

proof fn lemma_axis_round_trip(axis: AxisView, scope: Map<Seq<char>, AnimatedValueType>, data: Seq<u8>, pos: int)
    requires
        axis_encoding(axis) is Ok,
        axis_in_scope(axis, scope),
        0 <= pos,
        pos + axis_encoding(axis)->Ok_0.len() <= data.len(),
        data.subrange(pos, pos + axis_encoding(axis)->Ok_0.len()) == axis_encoding(axis)->Ok_0,
    ensures
        axis_parse(data, pos, scope) == Ok::<(AxisView, int), TargetFailure>(
            (axis, pos + axis_encoding(axis)->Ok_0.len()),
        ),
{
    let whole = axis_encoding(axis)->Ok_0;
    let name = <String as Encode>::encoding(axis.0)->Ok_0;
    let positive = <Option<String> as Encode>::encoding(axis.2)->Ok_0;
    let negative = <Option<String> as Encode>::encoding(axis.3)->Ok_0;
    let a: int = name.len() as int;
    let b: int = a + positive.len();
    assert(whole =~= name + (positive + negative));
    assert(whole.subrange(0, a) =~= name);
    assert(whole.subrange(a, b) =~= positive);
    assert(whole.subrange(b, b + negative.len()) =~= negative);
    lemma_chunk(data, pos, whole, 0, name);
    lemma_chunk(data, pos, whole, a, positive);
    lemma_chunk(data, pos, whole, b, negative);
    <String as WireFormat>::lemma_round_trip(axis.0, data, pos);
    <Option<String> as WireFormat>::lemma_round_trip(axis.2, data, pos + a);
    <Option<String> as WireFormat>::lemma_round_trip(axis.3, data, pos + b);
}

/// The tag and the name at the front of a control's bytes read back.
proof fn lemma_head_round_trip(tag: u8, name: Seq<char>, whole: Seq<u8>, data: Seq<u8>, pos: int)
    requires
        <String as Encode>::encoding(name) is Ok,
        1 + <String as Encode>::encoding(name)->Ok_0.len() <= whole.len(),
        whole.subrange(0, 1 + <String as Encode>::encoding(name)->Ok_0.len() as int) == seq![tag]
            + <String as Encode>::encoding(name)->Ok_0,
        0 <= pos,
        pos + whole.len() <= data.len(),
        data.subrange(pos, pos + whole.len()) == whole,
    ensures
        parse_u8(data, pos) == Ok::<(u8, int), DecodeError>((tag, pos + 1)),
        parse_string(data, pos + 1) == Ok::<(Seq<char>, int), DecodeError>(
            (name, pos + 1 + <String as Encode>::encoding(name)->Ok_0.len()),
        ),
{
    let text = <String as Encode>::encoding(name)->Ok_0;
    assert(whole[0] == (seq![tag] + text)[0]);
    lemma_tag(data, pos, whole, tag);
    let end: int = 1 + text.len() as int;
    assert(whole.subrange(1, end) =~= (seq![tag] + text).subrange(1, end));
    assert((seq![tag] + text).subrange(1, end) =~= text);
    lemma_chunk(data, pos, whole, 1, text);
    <String as WireFormat>::lemma_round_trip(name, data, pos + 1);
}

proof fn lemma_item_parse_value(
    data: Seq<u8>,
    pos: int,
    scope: Map<Seq<char>, AnimatedValueType>,
    tag: u8,
    name: Seq<char>,
    next: int,
)
    requires
        parse_u8(data, pos) == Ok::<(u8, int), DecodeError>((tag, pos + 1)),
        1 <= tag <= 2,
        parse_string(data, pos + 1) == Ok::<(Seq<char>, int), DecodeError>((name, next)),
    ensures
        item_parse(data, pos, scope) == value_control_parse(data, next, scope, tag, name),
{
}

proof fn lemma_item_parse_axes(
    data: Seq<u8>,
    pos: int,
    scope: Map<Seq<char>, AnimatedValueType>,
    tag: u8,
    name: Seq<char>,
    next: int,
)
    requires
        parse_u8(data, pos) == Ok::<(u8, int), DecodeError>((tag, pos + 1)),
        3 <= tag <= 5,
        parse_string(data, pos + 1) == Ok::<(Seq<char>, int), DecodeError>((name, next)),
    ensures
        item_parse(data, pos, scope) == axis_control_parse(data, next, scope, tag, name),
{
}

/// A toggle (tag 1) or a button (tag 2) reads back from its bytes.
proof fn lemma_value_control_round_trip(
    tag: u8,
    name: Seq<char>,
    parameter: (Seq<char>, AnimatedValueType),
    value: WireValueView<()>,
    scope: Map<Seq<char>, AnimatedValueType>,
    data: Seq<u8>,
    pos: int,
)
    requires
        1 <= tag <= 2,
        <String as Encode>::encoding(name) is Ok,
        <String as Encode>::encoding(parameter.0) is Ok,
        wire_value_encoding::<()>(value) is Ok,
        scope.contains_key(parameter.0) && scope[parameter.0] == parameter.1,
        0 <= pos,
        pos + 1 + <String as Encode>::encoding(name)->Ok_0.len() + <String as Encode>::encoding(parameter.0)->Ok_0.len()
            + wire_value_encoding::<()>(value)->Ok_0.len() <= data.len(),
        data.subrange(
            pos,
            pos + 1 + <String as Encode>::encoding(name)->Ok_0.len() + <String as Encode>::encoding(
                parameter.0,
            )->Ok_0.len() + wire_value_encoding::<()>(value)->Ok_0.len(),
        ) == ((seq![tag] + <String as Encode>::encoding(name)->Ok_0) + <String as Encode>::encoding(
            parameter.0,
        )->Ok_0) + wire_value_encoding::<()>(value)->Ok_0,
    ensures
        item_parse(data, pos, scope) == Ok::<(MenuItemView, int), TargetFailure>(
            (
                if tag == 1 {
                    MenuItemView::Toggle(name, parameter, value)
                } else {
                    MenuItemView::Button(name, parameter, value)
                },
                pos + 1 + <String as Encode>::encoding(name)->Ok_0.len() + <String as Encode>::encoding(
                    parameter.0,
                )->Ok_0.len() + wire_value_encoding::<()>(value)->Ok_0.len(),
            ),
        ),
{
    let text = <String as Encode>::encoding(name)->Ok_0;
    let key = <String as Encode>::encoding(parameter.0)->Ok_0;
    let bytes = wire_value_encoding::<()>(value)->Ok_0;
    let whole = ((seq![tag] + text) + key) + bytes;
    let b: int = 1 + text.len() as int;
    let c: int = b + key.len();
    assert(whole.subrange(0, b) =~= seq![tag] + text);
    assert(whole.subrange(b, c) =~= key);
    assert(whole.subrange(c, c + bytes.len()) =~= bytes);
    lemma_head_round_trip(tag, name, whole, data, pos);
    lemma_chunk(data, pos, whole, b, key);
    lemma_chunk(data, pos, whole, c, bytes);
    <String as WireFormat>::lemma_round_trip(parameter.0, data, pos + b);
    crate::animated_wire::law_wire_value_round_trip::<()>(value, 0, data, pos + c);
    lemma_item_parse_value(data, pos, scope, tag, name, pos + b);
}

/// A puppet reads back from its bytes: tag 3 with one axis, 4 with two, 5 with four.
proof fn lemma_axis_control_round_trip(
    tag: u8,
    name: Seq<char>,
    axes: Seq<AxisView>,
    scope: Map<Seq<char>, AnimatedValueType>,
    data: Seq<u8>,
    pos: int,
)
    requires
        3 <= tag <= 5,
        axes.len() == (if tag == 3 {
            1int
        } else if tag == 4 {
            2int
        } else {
            4int
        }),
        axes_encoding(then(Ok(seq![tag]), <String as Encode>::encoding(name)), axes) is Ok,
        forall|k: int| 0 <= k < axes.len() ==> axis_in_scope(#[trigger] axes[k], scope),
        0 <= pos,
        pos + axes_encoding(then(Ok(seq![tag]), <String as Encode>::encoding(name)), axes)->Ok_0.len()
            <= data.len(),
        data.subrange(
            pos,
            pos + axes_encoding(then(Ok(seq![tag]), <String as Encode>::encoding(name)), axes)->Ok_0.len(),
        ) == axes_encoding(then(Ok(seq![tag]), <String as Encode>::encoding(name)), axes)->Ok_0,
    ensures
        axis_control_parse(
            data,
            pos + 1 + <String as Encode>::encoding(name)->Ok_0.len(),
            scope,
            tag,
            name,
        ) == Ok::<(MenuItemView, int), TargetFailure>(
            (
                if tag == 3 {
                    MenuItemView::Radial(name, axes[0])
                } else if tag == 4 {
                    MenuItemView::TwoAxis(name, axes[0], axes[1])
                } else {
                    MenuItemView::FourAxis(name, axes[0], axes[1], axes[2], axes[3])
                },
                pos + axes_encoding(then(Ok(seq![tag]), <String as Encode>::encoding(name)), axes)->Ok_0.len(),
            ),
        ),
        item_parse(data, pos, scope) == axis_control_parse(
            data,
            pos + 1 + <String as Encode>::encoding(name)->Ok_0.len(),
            scope,
            tag,
            name,
        ),
{
    let head = then(Ok(seq![tag]), <String as Encode>::encoding(name));
    let whole = axes_encoding(head, axes)->Ok_0;
    lemma_axes_round_trip(head, axes, scope, data, pos);
    lemma_axes_head(head, axes);
    let text = <String as Encode>::encoding(name)->Ok_0;
    assert(whole.subrange(0, 1 + text.len() as int) =~= seq![tag] + text);
    lemma_head_round_trip(tag, name, whole, data, pos);
    lemma_item_parse_axes(data, pos, scope, tag, name, pos + 1 + text.len());
}

/// `head` comes first in the bytes of the axes written after it.
proof fn lemma_axes_head(head: Result<Seq<u8>, EncodeError>, axes: Seq<AxisView>)
    requires
        axes_encoding(head, axes) is Ok,
    ensures
        head is Ok,
        axes_encoding(head, axes)->Ok_0.subrange(0, head->Ok_0.len() as int) == head->Ok_0,
        head->Ok_0.len() <= axes_encoding(head, axes)->Ok_0.len(),
    decreases axes.len(),
{
    if axes.len() > 0 {
        lemma_axes_head(head, axes.drop_last());
        let front = axes_encoding(head, axes.drop_last())->Ok_0;
        let back = axis_encoding(axes.last())->Ok_0;
        assert((front + back).subrange(0, head->Ok_0.len() as int) =~= front.subrange(0, head->Ok_0.len() as int));
    }
}

/// After their head, the axes read back one after another.
proof fn lemma_axes_round_trip(
    head: Result<Seq<u8>, EncodeError>,
    axes: Seq<AxisView>,
    scope: Map<Seq<char>, AnimatedValueType>,
    data: Seq<u8>,
    pos: int,
)
    requires
        axes_encoding(head, axes) is Ok,
        forall|k: int| 0 <= k < axes.len() ==> axis_in_scope(#[trigger] axes[k], scope),
        0 <= pos,
        pos + axes_encoding(head, axes)->Ok_0.len() <= data.len(),
        data.subrange(pos, pos + axes_encoding(head, axes)->Ok_0.len()) == axes_encoding(head, axes)->Ok_0,
    ensures
        head is Ok,
        axes_parse(data, pos + head->Ok_0.len(), scope, axes.len()) == Ok::<(Seq<AxisView>, int), TargetFailure>(
            (axes, pos + axes_encoding(head, axes)->Ok_0.len()),
        ),
    decreases axes.len(),
{
    lemma_axes_head(head, axes);
    if axes.len() == 0 {
        assert(axes =~= Seq::<AxisView>::empty());
    } else {
        let front_axes = axes.drop_last();
        let whole = axes_encoding(head, axes)->Ok_0;
        let front = axes_encoding(head, front_axes)->Ok_0;
        let back = axis_encoding(axes.last())->Ok_0;
        assert(whole =~= front + back);
        assert(whole.subrange(0, front.len() as int) =~= front);
        assert(whole.subrange(front.len() as int, (front.len() + back.len()) as int) =~= back);
        lemma_chunk(data, pos, whole, 0, front);
        lemma_chunk(data, pos, whole, front.len() as int, back);
        assert forall|k: int| 0 <= k < front_axes.len() implies axis_in_scope(#[trigger] front_axes[k], scope) by {
            assert(front_axes[k] == axes[k]);
        }
        assert(axes.last() == axes[axes.len() - 1]);
        lemma_axes_round_trip(head, front_axes, scope, data, pos);
        lemma_axis_round_trip(axes.last(), scope, data, pos + front.len());
        assert(front_axes.push(axes.last()) =~= axes);
    }
}

proof fn lemma_item_parse_submenu(
    data: Seq<u8>,
    pos: int,
    scope: Map<Seq<char>, AnimatedValueType>,
    name: Seq<char>,
    next: int,
    count: u32,
    from: int,
)
    requires
        parse_u8(data, pos) == Ok::<(u8, int), DecodeError>((0u8, pos + 1)),
        parse_string(data, pos + 1) == Ok::<(Seq<char>, int), DecodeError>((name, next)),
        parse_u32(data, next) == Ok::<(u32, int), DecodeError>((count, from)),
    ensures
        item_parse(data, pos, scope) == match controls_parse(data, from, scope, count as nat) {
            Err(e) => Err(e),
            Ok((items, end)) => Ok((MenuItemView::SubMenu(name, items), end)),
        },
{
}

/// Reading a control where its bytes stand gives it back and ends right after it, provided
/// every parameter it names, in its submenus too, is in `scope` with the type it was resolved
/// to.
#[verifier::spinoff_prover]
#[verifier::rlimit(30)]
pub proof fn law_menu_item_round_trip(
    item: MenuItemView,
    scope: Map<Seq<char>, AnimatedValueType>,
    data: Seq<u8>,
    pos: int,
)
    requires
        item_encoding(item) is Ok,
        item_in_scope(item, scope),
        0 <= pos,
        pos + item_encoding(item)->Ok_0.len() <= data.len(),
        data.subrange(pos, pos + item_encoding(item)->Ok_0.len()) == item_encoding(item)->Ok_0,
    ensures
        item_parse(data, pos, scope) == Ok::<(MenuItemView, int), TargetFailure>(
            (item, pos + item_encoding(item)->Ok_0.len()),
        ),
    decreases item, 0int,
{
    match item {
        MenuItemView::SubMenu(name, items) => {
            lemma_submenu_round_trip(name, items, scope, data, pos);
        },
        MenuItemView::Toggle(name, parameter, value) => {
            lemma_value_control_round_trip(1, name, parameter, value, scope, data, pos);
        },
        MenuItemView::Button(name, parameter, value) => {
            lemma_value_control_round_trip(2, name, parameter, value, scope, data, pos);
        },
        MenuItemView::Radial(name, axis) => {
            lemma_radial_round_trip(name, axis, scope, data, pos);
        },
        MenuItemView::TwoAxis(name, horizontal, vertical) => {
            lemma_two_axis_round_trip(name, horizontal, vertical, scope, data, pos);
        },
        MenuItemView::FourAxis(name, up, down, left, right) => {
            lemma_four_axis_round_trip(name, seq![up, down, left, right], scope, data, pos);
        },
    }
}

proof fn lemma_radial_round_trip(
    name: Seq<char>,
    axis: AxisView,
    scope: Map<Seq<char>, AnimatedValueType>,
    data: Seq<u8>,
    pos: int,
)
    requires
        item_encoding(MenuItemView::Radial(name, axis)) is Ok,
        axis_in_scope(axis, scope),
        0 <= pos,
        pos + item_encoding(MenuItemView::Radial(name, axis))->Ok_0.len() <= data.len(),
        data.subrange(pos, pos + item_encoding(MenuItemView::Radial(name, axis))->Ok_0.len()) == item_encoding(
            MenuItemView::Radial(name, axis),
        )->Ok_0,
    ensures
        item_parse(data, pos, scope) == Ok::<(MenuItemView, int), TargetFailure>(
            (MenuItemView::Radial(name, axis), pos + item_encoding(MenuItemView::Radial(name, axis))->Ok_0.len()),
        ),
{
    reveal_with_fuel(axes_encoding, 2);
    let axes = seq![axis];
    assert(axes.drop_last() =~= Seq::<AxisView>::empty());
    lemma_axis_control_round_trip(3, name, axes, scope, data, pos);
}

proof fn lemma_two_axis_round_trip(
    name: Seq<char>,
    horizontal: AxisView,
    vertical: AxisView,
    scope: Map<Seq<char>, AnimatedValueType>,
    data: Seq<u8>,
    pos: int,
)
    requires
        item_encoding(MenuItemView::TwoAxis(name, horizontal, vertical)) is Ok,
        axis_in_scope(horizontal, scope) && axis_in_scope(vertical, scope),
        0 <= pos,
        pos + item_encoding(MenuItemView::TwoAxis(name, horizontal, vertical))->Ok_0.len() <= data.len(),
        data.subrange(pos, pos + item_encoding(MenuItemView::TwoAxis(name, horizontal, vertical))->Ok_0.len())
            == item_encoding(MenuItemView::TwoAxis(name, horizontal, vertical))->Ok_0,
    ensures
        item_parse(data, pos, scope) == Ok::<(MenuItemView, int), TargetFailure>(
            (
                MenuItemView::TwoAxis(name, horizontal, vertical),
                pos + item_encoding(MenuItemView::TwoAxis(name, horizontal, vertical))->Ok_0.len(),
            ),
        ),
{
    let head = then(Ok(seq![4u8]), <String as Encode>::encoding(name));
    let axes = seq![horizontal, vertical];
    assert(axes.drop_last() =~= seq![horizontal]);
    assert(seq![horizontal].drop_last() =~= Seq::<AxisView>::empty());
    assert(axes_encoding(head, Seq::<AxisView>::empty()) == head);
    assert(seq![horizontal].last() == horizontal);
    assert(axes_encoding(head, seq![horizontal]) == then(head, axis_encoding(horizontal)));
    assert(axes_encoding(head, axes) == then(axes_encoding(head, seq![horizontal]), axis_encoding(vertical)));
    lemma_axis_control_round_trip(4, name, axes, scope, data, pos);
}

proof fn lemma_four_axis_round_trip(
    name: Seq<char>,
    axes: Seq<AxisView>,
    scope: Map<Seq<char>, AnimatedValueType>,
    data: Seq<u8>,
    pos: int,
)
    requires
        axes.len() == 4,
        item_encoding(MenuItemView::FourAxis(name, axes[0], axes[1], axes[2], axes[3])) is Ok,
        forall|k: int| 0 <= k < axes.len() ==> axis_in_scope(#[trigger] axes[k], scope),
        0 <= pos,
        pos + item_encoding(MenuItemView::FourAxis(name, axes[0], axes[1], axes[2], axes[3]))->Ok_0.len()
            <= data.len(),
        data.subrange(
            pos,
            pos + item_encoding(MenuItemView::FourAxis(name, axes[0], axes[1], axes[2], axes[3]))->Ok_0.len(),
        ) == item_encoding(MenuItemView::FourAxis(name, axes[0], axes[1], axes[2], axes[3]))->Ok_0,
    ensures
        item_parse(data, pos, scope) == Ok::<(MenuItemView, int), TargetFailure>(
            (
                MenuItemView::FourAxis(name, axes[0], axes[1], axes[2], axes[3]),
                pos + item_encoding(MenuItemView::FourAxis(name, axes[0], axes[1], axes[2], axes[3]))->Ok_0.len(),
            ),
        ),
{
    let head = then(Ok(seq![5u8]), <String as Encode>::encoding(name));
    let one = seq![axes[0]];
    let two = seq![axes[0], axes[1]];
    let three = seq![axes[0], axes[1], axes[2]];
    assert(one.drop_last() =~= Seq::<AxisView>::empty());
    assert(two.drop_last() =~= one);
    assert(three.drop_last() =~= two);
    assert(axes.drop_last() =~= three);
    assert(axes_encoding(head, Seq::<AxisView>::empty()) == head);
    assert(one.last() == axes[0] && two.last() == axes[1] && three.last() == axes[2]);
    assert(axes_encoding(head, one) == then(head, axis_encoding(axes[0])));
    assert(axes_encoding(head, two) == then(axes_encoding(head, one), axis_encoding(axes[1])));
    assert(axes_encoding(head, three) == then(axes_encoding(head, two), axis_encoding(axes[2])));
    assert(axes_encoding(head, axes) == then(axes_encoding(head, three), axis_encoding(axes[3])));
    lemma_axis_control_round_trip(5, name, axes, scope, data, pos);
}

proof fn lemma_submenu_round_trip(
    name: Seq<char>,
    items: Seq<MenuItemView>,
    scope: Map<Seq<char>, AnimatedValueType>,
    data: Seq<u8>,
    pos: int,
)
    requires
        item_encoding(MenuItemView::SubMenu(name, items)) is Ok,
        controls_in_scope(items, scope),
        0 <= pos,
        pos + item_encoding(MenuItemView::SubMenu(name, items))->Ok_0.len() <= data.len(),
        data.subrange(pos, pos + item_encoding(MenuItemView::SubMenu(name, items))->Ok_0.len()) == item_encoding(
            MenuItemView::SubMenu(name, items),
        )->Ok_0,
    ensures
        item_parse(data, pos, scope) == Ok::<(MenuItemView, int), TargetFailure>(
            (
                MenuItemView::SubMenu(name, items),
                pos + item_encoding(MenuItemView::SubMenu(name, items))->Ok_0.len(),
            ),
        ),
    decreases items, 1int,
{
    let text = <String as Encode>::encoding(name)->Ok_0;
    let count = length_bytes(items.len());
    let body = items_encoding(items)->Ok_0;
    let whole = (seq![0u8] + text) + (count + body);
    assert(item_encoding(MenuItemView::SubMenu(name, items))->Ok_0 == whole);
    let b: int = 1 + text.len() as int;
    crate::bytes::lemma_le_bytes_len(items.len(), 4);
    assert(whole.subrange(0, b) =~= seq![0u8] + text);
    assert(whole.subrange(b, b + 4) =~= count);
    assert(whole.subrange(b + 4, b + 4 + body.len()) =~= body);
    lemma_head_round_trip(0, name, whole, data, pos);
    lemma_chunk(data, pos, whole, b, count);
    lemma_chunk(data, pos, whole, b + 4, body);
    <u32 as WireFormat>::lemma_round_trip(items.len() as u32, data, pos + b);
    lemma_controls_round_trip(items, scope, data, pos + b + 4);
    lemma_item_parse_submenu(data, pos, scope, name, pos + b, items.len() as u32, pos + b + 4);
}

proof fn lemma_controls_round_trip(
    items: Seq<MenuItemView>,
    scope: Map<Seq<char>, AnimatedValueType>,
    data: Seq<u8>,
    pos: int,
)
    requires
        items_encoding(items) is Ok,
        controls_in_scope(items, scope),
        0 <= pos,
        pos + items_encoding(items)->Ok_0.len() <= data.len(),
        data.subrange(pos, pos + items_encoding(items)->Ok_0.len()) == items_encoding(items)->Ok_0,
    ensures
        controls_parse(data, pos, scope, items.len()) == Ok::<(Seq<MenuItemView>, int), TargetFailure>(
            (items, pos + items_encoding(items)->Ok_0.len()),
        ),
    decreases items, 0int,
{
    if items.len() == 0 {
        assert(items =~= Seq::<MenuItemView>::empty());
    } else {
        let front = items.drop_last();
        let last = items.last();
        assert(items_encoding(items) == then(items_encoding(front), item_encoding(last)));
        assert(controls_in_scope(front, scope) && item_in_scope(last, scope));
        let head = items_encoding(front)->Ok_0;
        let tail = item_encoding(last)->Ok_0;
        let whole = head + tail;
        assert(items_encoding(items)->Ok_0 == whole);
        assert(whole.subrange(0, head.len() as int) =~= head);
        assert(whole.subrange(head.len() as int, (head.len() + tail.len()) as int) =~= tail);
        lemma_chunk(data, pos, whole, 0, head);
        lemma_chunk(data, pos, whole, head.len() as int, tail);
        assert(decreases_to!(items => items[items.len() - 1]));
        lemma_controls_round_trip(front, scope, data, pos);
        law_menu_item_round_trip(last, scope, data, pos + head.len());
        assert(front.push(last) =~= items);
    }
}

proof fn lemma_menu_items_encoding(items: Seq<MenuItemView>)
    ensures
        crate::codec::items_encoding::<MenuItem>(items) == items_encoding(items),
    decreases items.len(),
{
    if items.len() > 0 {
        lemma_menu_items_encoding(items.drop_last());
    }
}

/// Reading a whole menu where its bytes stand gives it back and ends right after it, provided
/// every parameter its controls name is in `scope` with the type it was resolved to.
pub proof fn law_menu_round_trip(
    items: Seq<MenuItemView>,
    scope: Map<Seq<char>, AnimatedValueType>,
    data: Seq<u8>,
    pos: int,
)
    requires
        <Vec<MenuItem> as Encode>::encoding(items) is Ok,
        controls_in_scope(items, scope),
        0 <= pos,
        pos + <Vec<MenuItem> as Encode>::encoding(items)->Ok_0.len() <= data.len(),
        data.subrange(pos, pos + <Vec<MenuItem> as Encode>::encoding(items)->Ok_0.len()) == <Vec<
            MenuItem,
        > as Encode>::encoding(items)->Ok_0,
    ensures
        menu_parse(data, pos, scope) == Ok::<(Seq<MenuItemView>, int), TargetFailure>(
            (items, pos + <Vec<MenuItem> as Encode>::encoding(items)->Ok_0.len()),
        ),
{
    lemma_menu_items_encoding(items);
    let count = length_bytes(items.len());
    let body = items_encoding(items)->Ok_0;
    let whole = count + body;
    assert(<Vec<MenuItem> as Encode>::encoding(items)->Ok_0 == whole);
    crate::bytes::lemma_le_bytes_len(items.len(), 4);
    assert(whole.subrange(0, 4) =~= count);
    assert(whole.subrange(4, 4 + body.len() as int) =~= body);
    lemma_chunk(data, pos, whole, 0, count);
    lemma_chunk(data, pos, whole, 4, body);
    <u32 as WireFormat>::lemma_round_trip(items.len() as u32, data, pos);
    lemma_controls_round_trip(items, scope, data, pos + 4);
}

} // verus!
