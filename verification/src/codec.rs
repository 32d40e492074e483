//! Wire forms of the primitive and container types: `bool`, `u32`, `i32`, `i64`, `String`,
//! `Option<T>` and `Vec<T>`, each with the proof that reading gives back what writing wrote.
use vstd::prelude::*;
use vstd::utf8::*;

use crate::bytes::{
    byte_bound, le_bytes, le_value, lemma_byte_bound_values, lemma_le_round_trip, lemma_twos_complement_round_trip,
    twos_complement,
};
use crate::wire::{
    length_bytes, length_encoding, parse_bool, parse_i32, parse_i64, parse_string, parse_u32, parse_u64, string_encoding,
    take_spec,
    Decode, DecodeError, Encode, EncodeError, Reader, WireFormat, Writer,
};

verus! {

broadcast use vstd::utf8::encode_utf8_valid_utf8, vstd::utf8::encode_utf8_decode_utf8;

/// Reading a `u32` where its four bytes stand gives it back.
pub proof fn lemma_u32_round_trip(value: nat, data: Seq<u8>, pos: int)
    requires
        value <= u32::MAX,
        0 <= pos,
        pos + 4 <= data.len(),
        data.subrange(pos, pos + 4) == le_bytes(value, 4),
    ensures
        parse_u32(data, pos) == Ok::<_, DecodeError>((value as u32, pos + 4)),
{
    lemma_byte_bound_values();
    lemma_le_round_trip(value, 4);
}

impl Encode for bool {
    open spec fn encoding(value: bool) -> Result<Seq<u8>, EncodeError> {
        Ok(seq![if value { 1u8 } else { 0u8 }])
    }

    fn encode(&self, writer: &mut Writer) -> (result: Result<(), EncodeError>) {
        writer.bool(*self);
        assert(writer@ =~= old(writer)@ + seq![if *self { 1u8 } else { 0u8 }]);
        Ok(())
    }
}

impl Decode for bool {
    open spec fn parse(data: Seq<u8>, pos: int) -> Result<(bool, int), DecodeError> {
        parse_bool(data, pos)
    }

    fn decode(reader: &mut Reader<'_>) -> (result: Result<bool, DecodeError>) {
        reader.bool()
    }
}

impl WireFormat for bool {
    proof fn lemma_round_trip(value: bool, data: Seq<u8>, pos: int) {
        assert(data.subrange(pos, pos + 1)[0] == data[pos]);
    }
}

impl Encode for u32 {
    open spec fn encoding(value: u32) -> Result<Seq<u8>, EncodeError> {
        Ok(le_bytes(value as nat, 4))
    }

    fn encode(&self, writer: &mut Writer) -> (result: Result<(), EncodeError>) {
        writer.u32(*self);
        Ok(())
    }
}

impl Decode for u32 {
    open spec fn parse(data: Seq<u8>, pos: int) -> Result<(u32, int), DecodeError> {
        parse_u32(data, pos)
    }

    fn decode(reader: &mut Reader<'_>) -> (result: Result<u32, DecodeError>) {
        reader.u32()
    }
}

impl WireFormat for u32 {
    proof fn lemma_round_trip(value: u32, data: Seq<u8>, pos: int) {
        crate::bytes::lemma_le_bytes_len(value as nat, 4);
        lemma_u32_round_trip(value as nat, data, pos);
    }
}

impl Encode for u64 {
    open spec fn encoding(value: u64) -> Result<Seq<u8>, EncodeError> {
        Ok(le_bytes(value as nat, 8))
    }

    fn encode(&self, writer: &mut Writer) -> (result: Result<(), EncodeError>) {
        writer.u64(*self);
        Ok(())
    }
}

impl Decode for u64 {
    open spec fn parse(data: Seq<u8>, pos: int) -> Result<(u64, int), DecodeError> {
        parse_u64(data, pos)
    }

    fn decode(reader: &mut Reader<'_>) -> (result: Result<u64, DecodeError>) {
        reader.u64()
    }
}

impl WireFormat for u64 {
    proof fn lemma_round_trip(value: u64, data: Seq<u8>, pos: int) {
        lemma_byte_bound_values();
        lemma_le_round_trip(value as nat, 8);
    }
}

impl Encode for i32 {
    open spec fn encoding(value: i32) -> Result<Seq<u8>, EncodeError> {
        Ok(le_bytes(twos_complement(value as int, 4), 4))
    }

    fn encode(&self, writer: &mut Writer) -> (result: Result<(), EncodeError>) {
        writer.i32(*self);
        Ok(())
    }
}

impl Decode for i32 {
    open spec fn parse(data: Seq<u8>, pos: int) -> Result<(i32, int), DecodeError> {
        parse_i32(data, pos)
    }

    fn decode(reader: &mut Reader<'_>) -> (result: Result<i32, DecodeError>) {
        reader.i32()
    }
}

impl WireFormat for i32 {
    proof fn lemma_round_trip(value: i32, data: Seq<u8>, pos: int) {
        lemma_byte_bound_values();
        lemma_twos_complement_round_trip(value as int, 4);
        lemma_le_round_trip(twos_complement(value as int, 4), 4);
    }
}

impl Encode for i64 {
    open spec fn encoding(value: i64) -> Result<Seq<u8>, EncodeError> {
        Ok(le_bytes(twos_complement(value as int, 8), 8))
    }

    fn encode(&self, writer: &mut Writer) -> (result: Result<(), EncodeError>) {
        writer.i64(*self);
        Ok(())
    }
}

impl Decode for i64 {
    open spec fn parse(data: Seq<u8>, pos: int) -> Result<(i64, int), DecodeError> {
        parse_i64(data, pos)
    }

    fn decode(reader: &mut Reader<'_>) -> (result: Result<i64, DecodeError>) {
        reader.i64()
    }
}

impl WireFormat for i64 {
    proof fn lemma_round_trip(value: i64, data: Seq<u8>, pos: int) {
        lemma_byte_bound_values();
        lemma_twos_complement_round_trip(value as int, 8);
        lemma_le_round_trip(twos_complement(value as int, 8), 8);
    }
}

impl Encode for String {
    open spec fn encoding(value: Seq<char>) -> Result<Seq<u8>, EncodeError> {
        string_encoding(value)
    }

    fn encode(&self, writer: &mut Writer) -> (result: Result<(), EncodeError>) {
        writer.string(self.as_str())
    }
}

impl Decode for String {
    open spec fn parse(data: Seq<u8>, pos: int) -> Result<(Seq<char>, int), DecodeError> {
        parse_string(data, pos)
    }

    fn decode(reader: &mut Reader<'_>) -> (result: Result<String, DecodeError>) {
        reader.string()
    }
}

impl WireFormat for String {
    proof fn lemma_round_trip(value: Seq<char>, data: Seq<u8>, pos: int) {
        let bytes = encode_utf8(value);
        let encoding = length_bytes(bytes.len()) + bytes;
        crate::bytes::lemma_le_bytes_len(bytes.len(), 4);
        assert(data.subrange(pos, pos + 4) =~= encoding.subrange(0, 4));
        assert(encoding.subrange(0, 4) =~= length_bytes(bytes.len()));
        lemma_u32_round_trip(bytes.len(), data, pos);
        assert(data.subrange(pos + 4, pos + 4 + bytes.len()) =~= encoding.subrange(4, encoding.len() as int));
        assert(encoding.subrange(4, encoding.len() as int) =~= bytes);
    }
}

impl<T: Encode> Encode for Option<T> {
    open spec fn encoding(value: Option<T::V>) -> Result<Seq<u8>, EncodeError> {
        match value {
            None => Ok(seq![0u8]),
            Some(inner) => match T::encoding(inner) {
                Ok(bytes) => Ok(seq![1u8] + bytes),
                Err(e) => Err(e),
            },
        }
    }

    fn encode(&self, writer: &mut Writer) -> (result: Result<(), EncodeError>) {
        match self {
            None => {
                writer.u8(0);
                assert(writer@ =~= old(writer)@ + seq![0u8]);
            },
            Some(value) => {
                writer.u8(1);
                value.encode(writer)?;
                assert(writer@ =~= old(writer)@ + (seq![1u8] + T::encoding(value.deep_view())->Ok_0));
            },
        }
        Ok(())
    }
}

impl<T: Decode> Decode for Option<T> {
    open spec fn parse(data: Seq<u8>, pos: int) -> Result<(Option<T::V>, int), DecodeError> {
        match take_spec(data, pos, 1) {
            Ok(tag) => if tag[0] == 0 {
                Ok((None, pos + 1))
            } else if tag[0] == 1 {
                match T::parse(data, pos + 1) {
                    Ok((inner, end)) => Ok((Some(inner), end)),
                    Err(e) => Err(e),
                }
            } else {
                Err(DecodeError::InvalidOptionTag(tag[0]))
            },
            Err(e) => Err(e),
        }
    }

    fn decode(reader: &mut Reader<'_>) -> (result: Result<Option<T>, DecodeError>) {
        match reader.u8()? {
            0 => Ok(None),
            1 => {
                let inner = T::decode(reader)?;
                Ok(Some(inner))
            },
            other => Err(DecodeError::InvalidOptionTag(other)),
        }
    }
}

impl<T: WireFormat> WireFormat for Option<T> {
    proof fn lemma_round_trip(value: Option<<T as DeepView>::V>, data: Seq<u8>, pos: int) {
        assert(data.subrange(pos, pos + 1)[0] == data[pos]);
        if let Some(inner) = value {
            let bytes = T::encoding(inner)->Ok_0;
            assert(data.subrange(pos + 1, pos + 1 + bytes.len()) =~= bytes) by {
                assert(data.subrange(pos + 1, pos + 1 + bytes.len()) =~= (seq![1u8] + bytes).subrange(
                    1,
                    1 + bytes.len() as int,
                ));
            }
            T::lemma_round_trip(inner, data, pos + 1);
        }
    }
}

/// The concatenated encodings of `items`, or the first item that cannot be written.
pub open spec fn items_encoding<T: Encode>(items: Seq<T::V>) -> Result<Seq<u8>, EncodeError>
    decreases items.len(),
{
    if items.len() == 0 {
        Ok(seq![])
    } else {
        match items_encoding::<T>(items.drop_last()) {
            Ok(front) => match T::encoding(items.last()) {
                Ok(back) => Ok(front + back),
                Err(e) => Err(e),
            },
            Err(e) => Err(e),
        }
    }
}

/// `count` values read one after another from `pos`, or the first error among them.
pub open spec fn items_parse<T: Decode>(data: Seq<u8>, pos: int, count: nat) -> Result<
    (Seq<T::V>, int),
    DecodeError,
>
    decreases count,
{
    if count == 0 {
        Ok((seq![], pos))
    } else {
        match items_parse::<T>(data, pos, (count - 1) as nat) {
            Ok((front, next)) => match T::parse(data, next) {
                Ok((item, end)) => Ok((front.push(item), end)),
                Err(e) => Err(e),
            },
            Err(e) => Err(e),
        }
    }
}

/// Once a prefix of the items cannot be written, neither can the whole list, for the same reason.
pub proof fn lemma_items_encoding_error_persists<T: Encode>(items: Seq<T::V>, count: int)
    requires
        0 <= count <= items.len(),
        items_encoding::<T>(items.take(count)) is Err,
    ensures
        items_encoding::<T>(items) == items_encoding::<T>(items.take(count)),
    decreases items.len() - count,
{
    if count == items.len() {
        assert(items.take(count) =~= items);
    } else {
        let front = items.drop_last();
        assert(front.take(count) =~= items.take(count));
        lemma_items_encoding_error_persists::<T>(front, count);
    }
}

/// Once the first items fail to read, reading more of them fails the same way.
pub proof fn lemma_items_parse_error_persists<T: Decode>(data: Seq<u8>, pos: int, done: nat, count: nat)
    requires
        done <= count,
        items_parse::<T>(data, pos, done) is Err,
    ensures
        items_parse::<T>(data, pos, count) == items_parse::<T>(data, pos, done),
    decreases count - done,
{
    if done < count {
        lemma_items_parse_error_persists::<T>(data, pos, done, (count - 1) as nat);
    }
}

/// Reading as many items as were written, where their encodings stand, gives them back.
pub proof fn lemma_items_round_trip<T: WireFormat>(items: Seq<<T as DeepView>::V>, data: Seq<u8>, pos: int)
    requires
        items_encoding::<T>(items) is Ok,
        0 <= pos,
        pos + items_encoding::<T>(items)->Ok_0.len() <= data.len(),
        data.subrange(pos, pos + items_encoding::<T>(items)->Ok_0.len()) == items_encoding::<T>(items)->Ok_0,
    ensures
        items_parse::<T>(data, pos, items.len()) == Ok::<_, DecodeError>(
            (items, pos + items_encoding::<T>(items)->Ok_0.len()),
        ),
    decreases items.len(),
{
    if items.len() > 0 {
        let front = items.drop_last();
        let front_bytes = items_encoding::<T>(front)->Ok_0;
        let back_bytes = T::encoding(items.last())->Ok_0;
        let all = front_bytes + back_bytes;
        assert(data.subrange(pos, pos + front_bytes.len()) =~= all.subrange(0, front_bytes.len() as int));
        assert(all.subrange(0, front_bytes.len() as int) =~= front_bytes);
        lemma_items_round_trip::<T>(front, data, pos);
        let middle = pos + front_bytes.len();
        assert(data.subrange(middle, middle + back_bytes.len()) =~= all.subrange(
            front_bytes.len() as int,
            all.len() as int,
        ));
        assert(all.subrange(front_bytes.len() as int, all.len() as int) =~= back_bytes);
        T::lemma_round_trip(items.last(), data, middle);
        assert(front.push(items.last()) =~= items);
    } else {
        assert(items =~= Seq::<<T as DeepView>::V>::empty());
    }
}

impl<T: Encode> Encode for Vec<T> {
    open spec fn encoding(value: Seq<T::V>) -> Result<Seq<u8>, EncodeError> {
        match length_encoding("list length", value.len()) {
            Ok(prefix) => match items_encoding::<T>(value) {
                Ok(items) => Ok(prefix + items),
                Err(e) => Err(e),
            },
            Err(e) => Err(e),
        }
    }

    fn encode(&self, writer: &mut Writer) -> (result: Result<(), EncodeError>) {
        let ghost items = self.deep_view();
        writer.length("list length", self.len())?;
        let ghost start = writer@;
        let mut i: usize = 0;
        assert(items.take(0) =~= Seq::<T::V>::empty());
        while i < self.len()
            invariant
                i <= self@.len(),
                items == self.deep_view(),
                length_encoding("list length", items.len()) == Ok::<Seq<u8>, EncodeError>(length_bytes(items.len())),
                start == old(writer)@ + length_bytes(items.len()),
                items.len() == self@.len(),
                items_encoding::<T>(items.take(i as int)) is Ok,
                writer@ == start + items_encoding::<T>(items.take(i as int))->Ok_0,
            decreases self@.len() - i,
        {
            let ghost before = writer@;
            let ghost front = items.take(i as int);
            assert(items.take(i + 1).drop_last() =~= front);
            assert(items[i as int] == self@[i as int].deep_view());
            match self[i].encode(writer) {
                Ok(()) => {},
                Err(e) => {
                    proof {
                        lemma_items_encoding_error_persists::<T>(items, i + 1);
                    }
                    return Err(e);
                },
            }
            i = i + 1;
            assert(writer@ =~= start + items_encoding::<T>(items.take(i as int))->Ok_0);
        }
        assert(items.take(i as int) =~= items);
        assert(writer@ =~= old(writer)@ + (length_bytes(items.len()) + items_encoding::<T>(items)->Ok_0));
        Ok(())
    }
}

impl<T: Decode> Decode for Vec<T> {
    open spec fn parse(data: Seq<u8>, pos: int) -> Result<(Seq<T::V>, int), DecodeError> {
        match parse_u32(data, pos) {
            Ok((count, start)) => items_parse::<T>(data, start, count as nat),
            Err(e) => Err(e),
        }
    }

    fn decode(reader: &mut Reader<'_>) -> (result: Result<Vec<T>, DecodeError>) {
        let count = reader.length("list length")?;
        let ghost data = reader.data();
        let ghost start = reader.pos();
        let mut items: Vec<T> = Vec::new();
        let mut i: usize = 0;
        assert(items.deep_view() =~= Seq::<T::V>::empty());
        while i < count
            invariant
                i <= count <= u32::MAX,
                reader.data() == data,
                data == old(reader).data(),
                parse_u32(data, old(reader).pos()) == Ok::<_, DecodeError>((count as u32, start)),
                items_parse::<T>(data, start, i as nat) == Ok::<_, DecodeError>((items.deep_view(), reader.pos())),
            decreases count - i,
        {
            let ghost front = items.deep_view();
            let ghost here = reader.pos();
            match T::decode(reader) {
                Ok(item) => {
                    items.push(item);
                    assert(items.deep_view() =~= front.push(item.deep_view()));
                },
                Err(e) => {
                    proof {
                        assert(T::parse(data, here) == Err::<(T::V, int), DecodeError>(e));
                        assert(items_parse::<T>(data, start, (i + 1) as nat) == Err::<(Seq<T::V>, int), DecodeError>(e));
                        lemma_items_parse_error_persists::<T>(data, start, (i + 1) as nat, count as nat);
                    }
                    return Err(e);
                },
            }
            i = i + 1;
        }
        Ok(items)
    }
}

impl<T: WireFormat> WireFormat for Vec<T> {
    proof fn lemma_round_trip(value: Seq<<T as DeepView>::V>, data: Seq<u8>, pos: int) {
        let items = items_encoding::<T>(value)->Ok_0;
        let encoding = length_bytes(value.len()) + items;
        crate::bytes::lemma_le_bytes_len(value.len(), 4);
        assert(data.subrange(pos, pos + 4) =~= encoding.subrange(0, 4));
        assert(encoding.subrange(0, 4) =~= length_bytes(value.len()));
        lemma_u32_round_trip(value.len(), data, pos);
        assert(data.subrange(pos + 4, pos + 4 + items.len()) =~= encoding.subrange(4, encoding.len() as int));
        assert(encoding.subrange(4, encoding.len() as int) =~= items);
        lemma_items_round_trip::<T>(value, data, pos + 4);
    }
}

} // verus!
