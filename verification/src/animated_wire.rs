//! Animated values on the wire. A tag names the kind of value; each floating-point component is
//! written as the eight bytes of its IEEE 754 bits, an int as its two's complement, a flag as one
//! byte, and an object reference by what stands for it.
use vstd::prelude::*;

use crate::bytes::{le_bytes, lemma_byte_bound_values, lemma_le_bytes_len, lemma_le_round_trip, twos_complement};
use crate::external::{decode_extern, extern_parse, Extern};
use crate::reference_checks::unknown;
use crate::unity_external::Asset;
use crate::value::AnimatedValueType;
use crate::wire::{
    parse_bool, parse_i64, parse_u32, parse_u64, parse_u8, Decode, DecodeError, Encode, EncodeError, Reader,
    WireFormat, Writer,
};

verus! {

/// What an object reference inside an animated value is written as.
pub trait WireReference: DeepView + Sized {
    /// The bytes of the reference, or why it has none.
    spec fn reference_encoding(value: Self::V) -> Result<Seq<u8>, EncodeError>;

    /// What reading a reference at `pos` yields, with `assets` entries in the asset table.
    spec fn reference_parse(data: Seq<u8>, pos: int, assets: usize) -> Result<(Self::V, int), DecodeError>;

    /// Whether the reference can be read back with `assets` entries in the asset table.
    spec fn reference_fits(value: Self::V, assets: usize) -> bool;

    fn encode_reference(&self, writer: &mut Writer) -> (result: Result<(), EncodeError>)
        ensures
            crate::wire::encoded(Self::reference_encoding(self.deep_view()), result, old(writer)@, final(writer)@),
    ;

    fn decode_reference(reader: &mut Reader<'_>, assets: usize) -> (result: Result<Self, DecodeError>)
        ensures
            final(reader).data() == old(reader).data(),
            crate::wire::decoded(
                Self::reference_parse(old(reader).data(), old(reader).pos(), assets),
                result,
                final(reader).pos(),
            ),
    ;

    /// Reading where a written reference stands gives it back, when it fits the asset table.
    proof fn lemma_reference_round_trip(value: Self::V, assets: usize, data: Seq<u8>, pos: int)
        requires
            0 <= pos,
        ensures
            Self::reference_encoding(value) is Ok && Self::reference_fits(value, assets) && pos
                + Self::reference_encoding(value)->Ok_0.len() <= data.len() && data.subrange(
                pos,
                pos + Self::reference_encoding(value)->Ok_0.len(),
            ) == Self::reference_encoding(value)->Ok_0 ==> Self::reference_parse(data, pos, assets) == Ok::<
                _,
                DecodeError,
            >((value, pos + Self::reference_encoding(value)->Ok_0.len())),
    ;
}

/// A compiled value refers to an asset by its index in the asset table.
impl WireReference for Extern<Asset> {
    open spec fn reference_encoding(value: u32) -> Result<Seq<u8>, EncodeError> {
        Ok(le_bytes(value as nat, 4))
    }

    open spec fn reference_parse(data: Seq<u8>, pos: int, assets: usize) -> Result<(u32, int), DecodeError> {
        extern_parse(data, pos, "asset", assets)
    }

    open spec fn reference_fits(value: u32, assets: usize) -> bool {
        (value as int) < assets
    }

    fn encode_reference(&self, writer: &mut Writer) -> (result: Result<(), EncodeError>) {
        writer.u32(self.index());
        Ok(())
    }

    fn decode_reference(reader: &mut Reader<'_>, assets: usize) -> (result: Result<Extern<Asset>, DecodeError>) {
        decode_extern(reader, "asset", assets)
    }

    proof fn lemma_reference_round_trip(value: u32, assets: usize, data: Seq<u8>, pos: int) {
        lemma_byte_bound_values();
        lemma_le_round_trip(value as nat, 4);
        if pos + 4 <= data.len() && data.subrange(pos, pos + 4) == le_bytes(value as nat, 4) {
            <u32 as WireFormat>::lemma_round_trip(value, data, pos);
        }
    }
}

/// A value written in a script refers to no asset yet, so such a reference cannot be written.
impl WireReference for () {
    open spec fn reference_encoding(value: ()) -> Result<Seq<u8>, EncodeError> {
        Err(EncodeError::Unrepresentable("an object reference without an asset"))
    }

    open spec fn reference_parse(data: Seq<u8>, pos: int, assets: usize) -> Result<((), int), DecodeError> {
        Err(DecodeError::InvalidDiscriminator { of_type: "AnimatedValue<()>", value: 8 })
    }

    open spec fn reference_fits(value: (), assets: usize) -> bool {
        false
    }

    fn encode_reference(&self, writer: &mut Writer) -> (result: Result<(), EncodeError>) {
        Err(EncodeError::Unrepresentable("an object reference without an asset"))
    }

    fn decode_reference(reader: &mut Reader<'_>, assets: usize) -> (result: Result<(), DecodeError>) {
        Err(unknown("AnimatedValue<()>", 8))
    }

    proof fn lemma_reference_round_trip(value: (), assets: usize, data: Seq<u8>, pos: int) {
    }
}

/// An animated value with each floating-point component held as its IEEE 754 bits.
#[derive(Debug, Clone, PartialEq)]
pub enum WireValue<R> {
    Float(u64),
    Int(i64),
    Bool(bool),
    Vector2(u64, u64),
    Vector3(u64, u64, u64),
    Vector4(u64, u64, u64, u64),
    /// The `i`, `j`, `k` and `w` parts, in that order.
    Quaternion(u64, u64, u64, u64),
    Color(u64, u64, u64, u64),
    ObjectReference(R),
}

/// The bits of the floating-point number `1.0`.
pub const ONE_BITS: u64 = 0x3ff0_0000_0000_0000;

impl<R> WireValue<R> {
    /// The type of the value.
    pub open spec fn spec_value_type(&self) -> AnimatedValueType {
        match self {
            WireValue::Float(..) => AnimatedValueType::Float,
            WireValue::Int(..) => AnimatedValueType::Int,
            WireValue::Bool(..) => AnimatedValueType::Bool,
            WireValue::Vector2(..) => AnimatedValueType::Vector2,
            WireValue::Vector3(..) => AnimatedValueType::Vector3,
            WireValue::Vector4(..) => AnimatedValueType::Vector4,
            WireValue::Quaternion(..) => AnimatedValueType::Quaternion,
            WireValue::Color(..) => AnimatedValueType::Color,
            WireValue::ObjectReference(..) => AnimatedValueType::ObjectReference,
        }
    }

    /// The type of the value.
    pub fn value_type(&self) -> (value_type: AnimatedValueType)
        ensures
            value_type == self.spec_value_type(),
    {
        match self {
            WireValue::Float(..) => AnimatedValueType::Float,
            WireValue::Int(..) => AnimatedValueType::Int,
            WireValue::Bool(..) => AnimatedValueType::Bool,
            WireValue::Vector2(..) => AnimatedValueType::Vector2,
            WireValue::Vector3(..) => AnimatedValueType::Vector3,
            WireValue::Vector4(..) => AnimatedValueType::Vector4,
            WireValue::Quaternion(..) => AnimatedValueType::Quaternion,
            WireValue::Color(..) => AnimatedValueType::Color,
            WireValue::ObjectReference(..) => AnimatedValueType::ObjectReference,
        }
    }

    /// The zero of the value's type: every component `0.0`, `0` or `false`, and the identity
    /// rotation for a quaternion. An object reference has none.
    pub open spec fn spec_zeroed(&self) -> Option<WireValue<R>> {
        match self {
            WireValue::Float(..) => Some(WireValue::Float(0)),
            WireValue::Int(..) => Some(WireValue::Int(0)),
            WireValue::Bool(..) => Some(WireValue::Bool(false)),
            WireValue::Vector2(..) => Some(WireValue::Vector2(0, 0)),
            WireValue::Vector3(..) => Some(WireValue::Vector3(0, 0, 0)),
            WireValue::Vector4(..) => Some(WireValue::Vector4(0, 0, 0, 0)),
            WireValue::Quaternion(..) => Some(WireValue::Quaternion(0, 0, 0, ONE_BITS)),
            WireValue::Color(..) => Some(WireValue::Color(0, 0, 0, 0)),
            WireValue::ObjectReference(..) => None,
        }
    }

    /// The zero of the value's type, if it has one.
    pub fn zeroed(&self) -> (zero: Option<WireValue<R>>)
        ensures
            zero == self.spec_zeroed(),
            zero matches Some(z) ==> z.spec_value_type() == self.spec_value_type(),
    {
        match self {
            WireValue::Float(..) => Some(WireValue::Float(0)),
            WireValue::Int(..) => Some(WireValue::Int(0)),
            WireValue::Bool(..) => Some(WireValue::Bool(false)),
            WireValue::Vector2(..) => Some(WireValue::Vector2(0, 0)),
            WireValue::Vector3(..) => Some(WireValue::Vector3(0, 0, 0)),
            WireValue::Vector4(..) => Some(WireValue::Vector4(0, 0, 0, 0)),
            WireValue::Quaternion(..) => Some(WireValue::Quaternion(0, 0, 0, ONE_BITS)),
            WireValue::Color(..) => Some(WireValue::Color(0, 0, 0, 0)),
            WireValue::ObjectReference(..) => None,
        }
    }
}

impl WireValue<()> {
    /// A copy of the value.
    pub fn duplicate(&self) -> (copy: WireValue<()>)
        ensures
            copy == *self,
    {
        match self {
            WireValue::Float(x) => WireValue::Float(*x),
            WireValue::Int(v) => WireValue::Int(*v),
            WireValue::Bool(b) => WireValue::Bool(*b),
            WireValue::Vector2(x, y) => WireValue::Vector2(*x, *y),
            WireValue::Vector3(x, y, z) => WireValue::Vector3(*x, *y, *z),
            WireValue::Vector4(x, y, z, w) => WireValue::Vector4(*x, *y, *z, *w),
            WireValue::Quaternion(i, j, k, w) => WireValue::Quaternion(*i, *j, *k, *w),
            WireValue::Color(r, g, b, a) => WireValue::Color(*r, *g, *b, *a),
            WireValue::ObjectReference(reference) => WireValue::ObjectReference(*reference),
        }
    }
}

/// A `WireValue` with its reference seen as a value.
pub enum WireValueView<V> {
    Float(u64),
    Int(i64),
    Bool(bool),
    Vector2(u64, u64),
    Vector3(u64, u64, u64),
    Vector4(u64, u64, u64, u64),
    Quaternion(u64, u64, u64, u64),
    Color(u64, u64, u64, u64),
    ObjectReference(V),
}

impl<R: DeepView> DeepView for WireValue<R> {
    type V = WireValueView<R::V>;

    open spec fn deep_view(&self) -> WireValueView<R::V> {
        match self {
            WireValue::Float(x) => WireValueView::Float(*x),
            WireValue::Int(v) => WireValueView::Int(*v),
            WireValue::Bool(b) => WireValueView::Bool(*b),
            WireValue::Vector2(x, y) => WireValueView::Vector2(*x, *y),
            WireValue::Vector3(x, y, z) => WireValueView::Vector3(*x, *y, *z),
            WireValue::Vector4(x, y, z, w) => WireValueView::Vector4(*x, *y, *z, *w),
            WireValue::Quaternion(i, j, k, w) => WireValueView::Quaternion(*i, *j, *k, *w),
            WireValue::Color(r, g, b, a) => WireValueView::Color(*r, *g, *b, *a),
            WireValue::ObjectReference(reference) => WireValueView::ObjectReference(reference.deep_view()),
        }
    }
}

/// The floating-point components, each as the eight bytes of its bits, in order.
pub open spec fn float_bytes(components: Seq<u64>) -> Seq<u8>
    decreases components.len(),
{
    if components.len() == 0 {
        seq![]
    } else {
        float_bytes(components.drop_last()) + le_bytes(components.last() as nat, 8)
    }
}

/// `count` floating-point components read at `pos`, and where they end.
pub open spec fn parse_floats(data: Seq<u8>, pos: int, count: nat) -> Result<(Seq<u64>, int), DecodeError>
    decreases count,
{
    if count == 0 {
        Ok((seq![], pos))
    } else {
        match parse_floats(data, pos, (count - 1) as nat) {
            Ok((front, end)) => match parse_u64(data, end) {
                Ok((last, next)) => Ok((front.push(last), next)),
                Err(e) => Err(e),
            },
            Err(e) => Err(e),
        }
    }
}

/// The tag of each kind of value and its components.
pub open spec fn wire_value_encoding<R: WireReference>(value: WireValueView<R::V>) -> Result<Seq<u8>, EncodeError> {
    match value {
        WireValueView::Float(x) => Ok(seq![0u8] + float_bytes(seq![x])),
        WireValueView::Int(v) => Ok(seq![1u8] + le_bytes(twos_complement(v as int, 8), 8)),
        WireValueView::Bool(b) => Ok(seq![2u8, if b { 1u8 } else { 0u8 }]),
        WireValueView::Vector2(x, y) => Ok(seq![3u8] + float_bytes(seq![x, y])),
        WireValueView::Vector3(x, y, z) => Ok(seq![4u8] + float_bytes(seq![x, y, z])),
        WireValueView::Vector4(x, y, z, w) => Ok(seq![5u8] + float_bytes(seq![x, y, z, w])),
        WireValueView::Quaternion(i, j, k, w) => Ok(seq![6u8] + float_bytes(seq![i, j, k, w])),
        WireValueView::Color(r, g, b, a) => Ok(seq![7u8] + float_bytes(seq![r, g, b, a])),
        WireValueView::ObjectReference(reference) => match R::reference_encoding(reference) {
            Ok(bytes) => Ok(seq![8u8] + bytes),
            Err(e) => Err(e),
        },
    }
}

/// What reading a value at `pos` yields, with `assets` entries in the asset table.
pub open spec fn wire_value_parse<R: WireReference>(data: Seq<u8>, pos: int, assets: usize) -> Result<
    (WireValueView<R::V>, int),
    DecodeError,
> {
    match parse_u8(data, pos) {
        Err(e) => Err(e),
        Ok((tag, start)) => if tag == 1 {
            match parse_i64(data, start) {
                Ok((v, end)) => Ok((WireValueView::Int(v), end)),
                Err(e) => Err(e),
            }
        } else if tag == 2 {
            match parse_bool(data, start) {
                Ok((b, end)) => Ok((WireValueView::Bool(b), end)),
                Err(e) => Err(e),
            }
        } else if tag == 8 {
            match R::reference_parse(data, start, assets) {
                Ok((reference, end)) => Ok((WireValueView::ObjectReference(reference), end)),
                Err(e) => Err(e),
            }
        } else if tag == 0 || (3 <= tag <= 7) {
            let count: nat = if tag == 0 {
                1
            } else if tag == 3 {
                2
            } else if tag == 4 {
                3
            } else {
                4
            };
            match parse_floats(data, start, count) {
                Err(e) => Err(e),
                Ok((c, end)) => Ok(
                    (
                        if tag == 0 {
                            WireValueView::Float(c[0])
                        } else if tag == 3 {
                            WireValueView::Vector2(c[0], c[1])
                        } else if tag == 4 {
                            WireValueView::Vector3(c[0], c[1], c[2])
                        } else if tag == 5 {
                            WireValueView::Vector4(c[0], c[1], c[2], c[3])
                        } else if tag == 6 {
                            WireValueView::Quaternion(c[0], c[1], c[2], c[3])
                        } else {
                            WireValueView::Color(c[0], c[1], c[2], c[3])
                        },
                        end,
                    ),
                ),
            }
        } else {
            Err(DecodeError::InvalidDiscriminator { of_type: "AnimatedValue", value: tag })
        },
    }
}

proof fn lemma_float_bytes_len(components: Seq<u64>)
    ensures
        float_bytes(components).len() == 8 * components.len(),
    decreases components.len(),
{
    if components.len() > 0 {
        lemma_float_bytes_len(components.drop_last());
        lemma_byte_bound_values();
        lemma_le_round_trip(components.last() as nat, 8);
    }
}

proof fn lemma_float_bytes_push(components: Seq<u64>, last: u64)
    ensures
        float_bytes(components.push(last)) == float_bytes(components) + le_bytes(last as nat, 8),
{
    assert(components.push(last).drop_last() =~= components);
}

/// Reading floating-point components where they were written gives them back.
pub proof fn lemma_floats_round_trip(components: Seq<u64>, data: Seq<u8>, pos: int)
    requires
        0 <= pos,
        pos + 8 * components.len() <= data.len(),
        data.subrange(pos, pos + 8 * components.len()) == float_bytes(components),
    ensures
        parse_floats(data, pos, components.len()) == Ok::<(Seq<u64>, int), DecodeError>(
            (components, pos + 8 * components.len()),
        ),
    decreases components.len(),
{
    if components.len() > 0 {
        let front = components.drop_last();
        let last = components.last();
        let n = components.len() as int;
        lemma_float_bytes_len(front);
        lemma_float_bytes_len(components);
        lemma_byte_bound_values();
        lemma_le_round_trip(last as nat, 8);
        let whole = data.subrange(pos, pos + 8 * n);
        assert(data.subrange(pos, pos + 8 * (n - 1)) =~= whole.subrange(0, 8 * (n - 1)));
        assert(whole.subrange(0, 8 * (n - 1)) =~= float_bytes(front));
        lemma_floats_round_trip(front, data, pos);
        assert(data.subrange(pos + 8 * (n - 1), pos + 8 * n) =~= whole.subrange(8 * (n - 1), 8 * n));
        assert(whole.subrange(8 * (n - 1), 8 * n) =~= le_bytes(last as nat, 8));
        <u64 as WireFormat>::lemma_round_trip(last, data, pos + 8 * (n - 1));
        assert(front.push(last) =~= components);
        assert(parse_floats(data, pos, (n - 1) as nat) == Ok::<(Seq<u64>, int), DecodeError>(
            (front, pos + 8 * (n - 1)),
        ));
        assert(parse_u64(data, pos + 8 * (n - 1)) == Ok::<(u64, int), DecodeError>((last, pos + 8 * n)));
    } else {
        assert(components =~= Seq::<u64>::empty());
    }
}

proof fn lemma_floats_error_persists(data: Seq<u8>, pos: int, k: nat, count: nat)
    requires
        k <= count,
        parse_floats(data, pos, k) is Err,
    ensures
        parse_floats(data, pos, count) == parse_floats(data, pos, k),
    decreases count,
{
    if count > k {
        lemma_floats_error_persists(data, pos, k, (count - 1) as nat);
    }
}

fn write_floats(writer: &mut Writer, components: &[u64])
    ensures
        final(writer)@ == old(writer)@ + float_bytes(components@),
{
    let ghost start = writer@;
    let mut i: usize = 0;
    assert(components@.take(0) =~= Seq::<u64>::empty());
    assert(start + float_bytes(Seq::<u64>::empty()) =~= start);
    while i < components.len()
        invariant
            i <= components@.len(),
            writer@ == start + float_bytes(components@.take(i as int)),
        decreases components@.len() - i,
    {
        proof {
            lemma_float_bytes_push(components@.take(i as int), components@[i as int]);
            assert(components@.take(i as int).push(components@[i as int]) =~= components@.take(i + 1));
        }
        writer.u64(components[i]);
        assert(writer@ =~= start + float_bytes(components@.take(i + 1)));
        i = i + 1;
    }
    assert(components@.take(i as int) =~= components@);
}

fn read_floats(reader: &mut Reader<'_>, count: usize) -> (result: Result<Vec<u64>, DecodeError>)
    ensures
        final(reader).data() == old(reader).data(),
        match parse_floats(old(reader).data(), old(reader).pos(), count as nat) {
            Ok((components, end)) => result matches Ok(read) && read@ == components && final(reader).pos() == end,
            Err(e) => result == Err::<Vec<u64>, DecodeError>(e),
        },
        result matches Ok(read) ==> read@.len() == count,
{
    let ghost data = reader.data();
    let ghost start = reader.pos();
    let mut read: Vec<u64> = Vec::new();
    let mut i: usize = 0;
    while i < count
        invariant
            i <= count,
            reader.data() == data,
            data == old(reader).data(),
            start == old(reader).pos(),
            read@.len() == i,
            parse_floats(data, start, i as nat) == Ok::<(Seq<u64>, int), DecodeError>((read@, reader.pos())),
        decreases count - i,
    {
        match reader.u64() {
            Ok(component) => read.push(component),
            Err(e) => {
                proof {
                    lemma_floats_error_persists(data, start, (i + 1) as nat, count as nat);
                }
                return Err(e);
            },
        }
        i = i + 1;
    }
    Ok(read)
}

/// Each value is written as its tag and then its components.
impl<R: WireReference> Encode for WireValue<R> {
    open spec fn encoding(value: WireValueView<R::V>) -> Result<Seq<u8>, EncodeError> {
        wire_value_encoding::<R>(value)
    }

    fn encode(&self, writer: &mut Writer) -> (result: Result<(), EncodeError>) {
        let ghost before = writer@;
        match self {
            WireValue::Float(x) => {
                writer.u8(0);
                let parts = [*x];
                assert(parts@ =~= seq![*x]);
                write_floats(writer, &parts);
            },
            WireValue::Int(v) => {
                writer.u8(1);
                writer.i64(*v);
            },
            WireValue::Bool(b) => {
                writer.u8(2);
                writer.bool(*b);
            },
            WireValue::Vector2(x, y) => {
                writer.u8(3);
                let parts = [*x, *y];
                assert(parts@ =~= seq![*x, *y]);
                write_floats(writer, &parts);
            },
            WireValue::Vector3(x, y, z) => {
                writer.u8(4);
                let parts = [*x, *y, *z];
                assert(parts@ =~= seq![*x, *y, *z]);
                write_floats(writer, &parts);
            },
            WireValue::Vector4(x, y, z, w) => {
                writer.u8(5);
                let parts = [*x, *y, *z, *w];
                assert(parts@ =~= seq![*x, *y, *z, *w]);
                write_floats(writer, &parts);
            },
            WireValue::Quaternion(i, j, k, w) => {
                writer.u8(6);
                let parts = [*i, *j, *k, *w];
                assert(parts@ =~= seq![*i, *j, *k, *w]);
                write_floats(writer, &parts);
            },
            WireValue::Color(r, g, b, a) => {
                writer.u8(7);
                let parts = [*r, *g, *b, *a];
                assert(parts@ =~= seq![*r, *g, *b, *a]);
                write_floats(writer, &parts);
            },
            WireValue::ObjectReference(reference) => {
                writer.u8(8);
                reference.encode_reference(writer)?;
            },
        }
        assert(writer@ =~= before + Self::encoding(self.deep_view())->Ok_0);
        Ok(())
    }
}

/// Reads a value, with `assets` entries in the asset table for a reference to point into.
pub fn decode_wire_value<R: WireReference>(reader: &mut Reader<'_>, assets: usize) -> (result: Result<
    WireValue<R>,
    DecodeError,
>)
    ensures
        final(reader).data() == old(reader).data(),
        crate::wire::decoded(wire_value_parse::<R>(old(reader).data(), old(reader).pos(), assets), result, final(reader).pos()),
{
    let tag = reader.u8()?;
    if tag == 1 {
        let v = reader.i64()?;
        return Ok(WireValue::Int(v));
    }
    if tag == 2 {
        let b = reader.bool()?;
        return Ok(WireValue::Bool(b));
    }
    if tag == 8 {
        let reference = R::decode_reference(reader, assets)?;
        return Ok(WireValue::ObjectReference(reference));
    }
    if tag == 0 || (3 <= tag && tag <= 7) {
        let count: usize = if tag == 0 {
            1
        } else if tag == 3 {
            2
        } else if tag == 4 {
            3
        } else {
            4
        };
        let c = read_floats(reader, count)?;
        return Ok(
            if tag == 0 {
                WireValue::Float(c[0])
            } else if tag == 3 {
                WireValue::Vector2(c[0], c[1])
            } else if tag == 4 {
                WireValue::Vector3(c[0], c[1], c[2])
            } else if tag == 5 {
                WireValue::Vector4(c[0], c[1], c[2], c[3])
            } else if tag == 6 {
                WireValue::Quaternion(c[0], c[1], c[2], c[3])
            } else {
                WireValue::Color(c[0], c[1], c[2], c[3])
            },
        );
    }
    Err(unknown("AnimatedValue", tag))
}

proof fn lemma_after_tag(tag: u8, payload: Seq<u8>, data: Seq<u8>, pos: int)
    requires
        0 <= pos,
        pos + 1 + payload.len() <= data.len(),
        data.subrange(pos, pos + 1 + payload.len()) == seq![tag] + payload,
    ensures
        parse_u8(data, pos) == Ok::<(u8, int), DecodeError>((tag, pos + 1)),
        data.subrange(pos + 1, pos + 1 + payload.len()) == payload,
{
    assert(data.subrange(pos, pos + 1 + payload.len())[0] == data[pos]);
    assert(data.subrange(pos, pos + 1)[0] == data[pos]);
    assert(data.subrange(pos + 1, pos + 1 + payload.len()) =~= (seq![tag] + payload).subrange(
        1,
        1 + payload.len() as int,
    ));
}

proof fn lemma_floats_after_tag(tag: u8, components: Seq<u64>, data: Seq<u8>, pos: int)
    requires
        0 <= pos,
        pos + 1 + float_bytes(components).len() <= data.len(),
        data.subrange(pos, pos + 1 + float_bytes(components).len()) == seq![tag] + float_bytes(components),
    ensures
        parse_u8(data, pos) == Ok::<(u8, int), DecodeError>((tag, pos + 1)),
        parse_floats(data, pos + 1, components.len()) == Ok::<(Seq<u64>, int), DecodeError>(
            (components, pos + 1 + 8 * components.len()),
        ),
{
    lemma_float_bytes_len(components);
    lemma_after_tag(tag, float_bytes(components), data, pos);
    lemma_floats_round_trip(components, data, pos + 1);
}

/// Reading a value where its encoding stands gives it back and ends right after it, provided a
/// reference points into the asset table that is read with.
pub proof fn law_wire_value_round_trip<R: WireReference>(
    value: WireValueView<R::V>,
    assets: usize,
    data: Seq<u8>,
    pos: int,
)
    requires
        wire_value_encoding::<R>(value) is Ok,
        value matches WireValueView::ObjectReference(reference) ==> R::reference_fits(reference, assets),
        0 <= pos,
        pos + wire_value_encoding::<R>(value)->Ok_0.len() <= data.len(),
        data.subrange(pos, pos + wire_value_encoding::<R>(value)->Ok_0.len()) == wire_value_encoding::<R>(
            value,
        )->Ok_0,
    ensures
        wire_value_parse::<R>(data, pos, assets) == Ok::<(WireValueView<R::V>, int), DecodeError>(
            (value, pos + wire_value_encoding::<R>(value)->Ok_0.len()),
        ),
{
    lemma_byte_bound_values();
    match value {
        WireValueView::Float(x) => {
            lemma_float_bytes_len(seq![x]);
            lemma_floats_after_tag(0, seq![x], data, pos);
            assert(seq![x].len() == 1 && seq![x][0] == x);
            assert((seq![0u8] + float_bytes(seq![x])).len() == 9);
        },
        WireValueView::Int(v) => {
            let payload = le_bytes(twos_complement(v as int, 8), 8);
            lemma_le_round_trip(twos_complement(v as int, 8), 8);
            lemma_after_tag(1, payload, data, pos);
            <i64 as WireFormat>::lemma_round_trip(v, data, pos + 1);
        },
        WireValueView::Bool(b) => {
            let payload = seq![if b { 1u8 } else { 0u8 }];
            assert(seq![2u8, if b { 1u8 } else { 0u8 }] =~= seq![2u8] + payload);
            lemma_after_tag(2, payload, data, pos);
            <bool as WireFormat>::lemma_round_trip(b, data, pos + 1);
        },
        WireValueView::Vector2(x, y) => {
            lemma_floats_after_tag(3, seq![x, y], data, pos);
            lemma_float_bytes_len(seq![x, y]);
            assert((seq![3u8] + float_bytes(seq![x, y])).len() == 17);
        },
        WireValueView::Vector3(x, y, z) => {
            lemma_floats_after_tag(4, seq![x, y, z], data, pos);
            lemma_float_bytes_len(seq![x, y, z]);
            assert((seq![4u8] + float_bytes(seq![x, y, z])).len() == 25);
        },
        WireValueView::Vector4(x, y, z, w) => {
            lemma_floats_after_tag(5, seq![x, y, z, w], data, pos);
            lemma_float_bytes_len(seq![x, y, z, w]);
            assert((seq![5u8] + float_bytes(seq![x, y, z, w])).len() == 33);
        },
        WireValueView::Quaternion(i, j, k, w) => {
            lemma_floats_after_tag(6, seq![i, j, k, w], data, pos);
            lemma_float_bytes_len(seq![i, j, k, w]);
            assert((seq![6u8] + float_bytes(seq![i, j, k, w])).len() == 33);
        },
        WireValueView::Color(r, g, b, a) => {
            lemma_floats_after_tag(7, seq![r, g, b, a], data, pos);
            lemma_float_bytes_len(seq![r, g, b, a]);
            assert((seq![7u8] + float_bytes(seq![r, g, b, a])).len() == 33);
        },
        WireValueView::ObjectReference(reference) => {
            let payload = R::reference_encoding(reference)->Ok_0;
            lemma_after_tag(8, payload, data, pos);
            R::lemma_reference_round_trip(reference, assets, data, pos + 1);
        },
    }
}

/* ------------------------------------------------------------------------------------------- *
 * Components in their declared order
 * ------------------------------------------------------------------------------------------- */
/// The floating-point components of a value, in the order its type declares them: `x`, `y`, `z`,
/// `w` for a vector, `i`, `j`, `k`, `w` for a quaternion, `r`, `g`, `b`, `a` for a color, the
/// number itself for a float; none for an int, a bool or a reference.
pub open spec fn components_of<R>(value: WireValue<R>) -> Seq<u64> {
    match value {
        WireValue::Float(x) => seq![x],
        WireValue::Vector2(x, y) => seq![x, y],
        WireValue::Vector3(x, y, z) => seq![x, y, z],
        WireValue::Vector4(x, y, z, w) => seq![x, y, z, w],
        WireValue::Quaternion(i, j, k, w) => seq![i, j, k, w],
        WireValue::Color(r, g, b, a) => seq![r, g, b, a],
        _ => seq![],
    }
}

/// The floating-point components of a value seen as a value, in the order its type declares them.
pub open spec fn view_components<V>(value: WireValueView<V>) -> Seq<u64> {
    match value {
        WireValueView::Float(x) => seq![x],
        WireValueView::Vector2(x, y) => seq![x, y],
        WireValueView::Vector3(x, y, z) => seq![x, y, z],
        WireValueView::Vector4(x, y, z, w) => seq![x, y, z, w],
        WireValueView::Quaternion(i, j, k, w) => seq![i, j, k, w],
        WireValueView::Color(r, g, b, a) => seq![r, g, b, a],
        _ => seq![],
    }
}

/// The zero of a value's type has the type of the value, the same number of components, and
/// every component `0.0`, except the `w` of a quaternion, which is `1.0` (the identity
/// rotation); the zero of an int is `0` and of a bool `false`, and only a reference has none.
pub proof fn law_zero_components<R>(value: WireValue<R>)
    ensures
        match value.spec_zeroed() {
            Some(zero) => {
                &&& zero.spec_value_type() == value.spec_value_type()
                &&& components_of(zero).len() == components_of(value).len()
                &&& forall|k: int|
                    0 <= k < components_of(zero).len() ==> #[trigger] components_of(zero)[k] == if value is Quaternion
                        && k == 3 {
                        ONE_BITS
                    } else {
                        0u64
                    }
                &&& (zero matches WireValue::Int(n) ==> n == 0)
                &&& (zero matches WireValue::Bool(b) ==> !b)
            },
            None => value is ObjectReference,
        },
{
}

proof fn lemma_float_bytes_at(components: Seq<u64>, k: int)
    requires
        0 <= k < components.len(),
    ensures
        float_bytes(components).len() == 8 * components.len(),
        float_bytes(components).subrange(8 * k, 8 * k + 8) == le_bytes(components[k] as nat, 8),
    decreases components.len(),
{
    let front = components.drop_last();
    let last = components.last();
    lemma_float_bytes_len(components);
    lemma_float_bytes_len(front);
    lemma_le_bytes_len(last as nat, 8);
    let whole = float_bytes(components);
    assert(whole == float_bytes(front) + le_bytes(last as nat, 8));
    if k < components.len() - 1 {
        lemma_float_bytes_at(front, k);
        assert(whole.subrange(8 * k, 8 * k + 8) =~= float_bytes(front).subrange(8 * k, 8 * k + 8));
        assert(front[k] == components[k]);
    } else {
        assert(whole.subrange(8 * k, 8 * k + 8) =~= le_bytes(last as nat, 8));
    }
}

/// A value with floating-point components is written as the tag of its type (`0` for a float,
/// `3`, `4`, `5` for vectors of two, three, four components, `6` for a quaternion, `7` for a
/// color) and then the eight little-endian bytes of each component's bits, in the order the type
/// declares them.
pub proof fn law_components_travel_in_declared_order<R: WireReference>(value: WireValueView<R::V>)
    requires
        view_components(value).len() > 0,
    ensures
        wire_value_encoding::<R>(value) is Ok,
        wire_value_encoding::<R>(value)->Ok_0.len() == 1 + 8 * view_components(value).len(),
        wire_value_encoding::<R>(value)->Ok_0[0] == match value {
            WireValueView::Float(..) => 0u8,
            WireValueView::Vector2(..) => 3u8,
            WireValueView::Vector3(..) => 4u8,
            WireValueView::Vector4(..) => 5u8,
            WireValueView::Quaternion(..) => 6u8,
            _ => 7u8,
        },
        forall|k: int|
            0 <= k < view_components(value).len() ==> wire_value_encoding::<R>(value)->Ok_0.subrange(1 + 8 * k, 9 + 8 * k)
                == le_bytes(#[trigger] view_components(value)[k] as nat, 8),
{
    let components = view_components(value);
    lemma_float_bytes_len(components);
    assert(wire_value_encoding::<R>(value) == Ok::<Seq<u8>, EncodeError>(
        seq![wire_value_encoding::<R>(value)->Ok_0[0]] + float_bytes(components),
    ));
    assert forall|k: int| 0 <= k < components.len() implies wire_value_encoding::<R>(value)->Ok_0.subrange(
        1 + 8 * k,
        9 + 8 * k,
    ) == le_bytes(#[trigger] components[k] as nat, 8) by {
        lemma_float_bytes_at(components, k);
        let bytes = wire_value_encoding::<R>(value)->Ok_0;
        assert(bytes.subrange(1 + 8 * k, 9 + 8 * k) =~= float_bytes(components).subrange(8 * k, 8 * k + 8));
    }
}

/// `ONE_BITS` is the IEEE 754 double `1.0`: sign clear, biased exponent 1023, fraction zero.
pub proof fn law_one_bits_is_one()
    ensures
        ONE_BITS >> 63u64 == 0,
        (ONE_BITS >> 52u64) & 0x7ffu64 == 1023,
        ONE_BITS & 0xf_ffff_ffff_ffffu64 == 0,
{
    assert(0x3ff0_0000_0000_0000u64 >> 63u64 == 0) by (bit_vector);
    assert((0x3ff0_0000_0000_0000u64 >> 52u64) & 0x7ffu64 == 1023) by (bit_vector);
    assert(0x3ff0_0000_0000_0000u64 & 0xf_ffff_ffff_ffffu64 == 0) by (bit_vector);
}

/// The type of a value is the one it is written as: the tag its encoding starts with is that
/// type's tag (`0` float, `1` int, `2` bool, `3` to `5` vectors of two to four components, `6`
/// quaternion, `7` color, `8` reference), and the number of its floating-point components is
/// the number its type holds.
pub proof fn law_type_is_what_is_written<R: WireReference>(value: WireValue<R>)
    ensures
        wire_value_encoding::<R>(value.deep_view()) matches Ok(bytes) ==> bytes[0] == match value.spec_value_type() {
            AnimatedValueType::Float => 0u8,
            AnimatedValueType::Int => 1u8,
            AnimatedValueType::Bool => 2u8,
            AnimatedValueType::Vector2 => 3u8,
            AnimatedValueType::Vector3 => 4u8,
            AnimatedValueType::Vector4 => 5u8,
            AnimatedValueType::Quaternion => 6u8,
            AnimatedValueType::Color => 7u8,
            AnimatedValueType::ObjectReference => 8u8,
        },
        components_of(value).len() == match value.spec_value_type() {
            AnimatedValueType::Float => 1nat,
            AnimatedValueType::Vector2 => 2nat,
            AnimatedValueType::Vector3 => 3nat,
            AnimatedValueType::Vector4 | AnimatedValueType::Quaternion | AnimatedValueType::Color => 4nat,
            _ => 0nat,
        },
{
}

} // verus!
