//! The interop wire format: fixed-width little-endian integers, length-prefixed UTF-8 strings,
//! tagged options and length-prefixed lists, written by `Writer` and read back by `Reader`.
use vstd::prelude::*;
use vstd::utf8::*;

use crate::bytes::{
    byte_bound, from_twos_complement, le_bytes, le_value, lemma_byte_bound_values, lemma_le_value_bound, push_le,
    read_le, twos_complement,
};
use crate::header::BlobKind;
use crate::value::AnimatedValueType;

verus! {

broadcast use vstd::utf8::encode_utf8_valid_utf8, vstd::utf8::encode_utf8_decode_utf8;

/// A value that the wire format cannot carry.
#[derive(Debug, Clone, PartialEq, Eq)]
pub enum EncodeError {
    /// A length or index does not fit in the 32 bits the format gives it.
    Overflow { what: &'static str, value: usize },
    /// A value with no wire representation.
    Unrepresentable(&'static str),
}

/// Why a blob or a value inside it was rejected.
#[derive(Debug, Clone, PartialEq, Eq)]
pub enum DecodeError {
    TruncatedHeader { found: usize },
    UnknownMagic([u8; 4]),
    UnexpectedKind { expected: BlobKind, found: BlobKind },
    SchemaVersionMismatch { expected: u16, found: u16 },
    DataVersionMismatch { kind: BlobKind, expected: u16, found: u16 },
    ReservedNotZero(u32),
    LengthMismatch { declared: u32, actual: usize },
    UnexpectedEnd { offset: usize, needed: usize, remaining: usize },
    TrailingBytes(usize),
    LengthOverflow { what: &'static str, value: u32 },
    InvalidBool(u8),
    InvalidOptionTag(u8),
    InvalidDiscriminator { of_type: &'static str, value: u8 },
    InvalidUtf8 { offset: usize },
    ExternOutOfRange { kind: &'static str, index: u32, len: usize },
    StateOutOfRange { index: u32, len: usize },
    UnknownParameter(String),
    ConflictingParameter { name: String, first: AnimatedValueType, second: AnimatedValueType },
    Duplicate { what: &'static str, key: String },
}

/* ---------------------------------------------------------------------------------------------
 * What the format says, as spec functions over byte sequences.
 * ------------------------------------------------------------------------------------------- */
/// The `n` bytes at `pos`, or the shortage that stops reading them.
pub open spec fn take_spec(data: Seq<u8>, pos: int, n: int) -> Result<Seq<u8>, DecodeError> {
    if n <= data.len() - pos {
        Ok(data.subrange(pos, pos + n))
    } else {
        Err(
            DecodeError::UnexpectedEnd {
                offset: pos as usize,
                needed: n as usize,
                remaining: (data.len() - pos) as usize,
            },
        )
    }
}

pub open spec fn parse_u8(data: Seq<u8>, pos: int) -> Result<(u8, int), DecodeError> {
    match take_spec(data, pos, 1) {
        Ok(bytes) => Ok((bytes[0], pos + 1)),
        Err(e) => Err(e),
    }
}

/// An unsigned number of `width` bytes at `pos`.
pub open spec fn parse_unsigned(data: Seq<u8>, pos: int, width: int) -> Result<(nat, int), DecodeError> {
    match take_spec(data, pos, width) {
        Ok(bytes) => Ok((le_value(bytes), pos + width)),
        Err(e) => Err(e),
    }
}

pub open spec fn parse_u16(data: Seq<u8>, pos: int) -> Result<(u16, int), DecodeError> {
    match parse_unsigned(data, pos, 2) {
        Ok((value, end)) => Ok((value as u16, end)),
        Err(e) => Err(e),
    }
}

pub open spec fn parse_u32(data: Seq<u8>, pos: int) -> Result<(u32, int), DecodeError> {
    match parse_unsigned(data, pos, 4) {
        Ok((value, end)) => Ok((value as u32, end)),
        Err(e) => Err(e),
    }
}

pub open spec fn parse_u64(data: Seq<u8>, pos: int) -> Result<(u64, int), DecodeError> {
    match parse_unsigned(data, pos, 8) {
        Ok((value, end)) => Ok((value as u64, end)),
        Err(e) => Err(e),
    }
}

pub open spec fn parse_i32(data: Seq<u8>, pos: int) -> Result<(i32, int), DecodeError> {
    match parse_unsigned(data, pos, 4) {
        Ok((value, end)) => Ok((from_twos_complement(value, 4) as i32, end)),
        Err(e) => Err(e),
    }
}

pub open spec fn parse_i64(data: Seq<u8>, pos: int) -> Result<(i64, int), DecodeError> {
    match parse_unsigned(data, pos, 8) {
        Ok((value, end)) => Ok((from_twos_complement(value, 8) as i64, end)),
        Err(e) => Err(e),
    }
}

pub open spec fn parse_bool(data: Seq<u8>, pos: int) -> Result<(bool, int), DecodeError> {
    match parse_u8(data, pos) {
        Ok((byte, end)) => if byte == 0 {
            Ok((false, end))
        } else if byte == 1 {
            Ok((true, end))
        } else {
            Err(DecodeError::InvalidBool(byte))
        },
        Err(e) => Err(e),
    }
}

/// A string: its byte length as a `u32`, then that many bytes of UTF-8.
pub open spec fn parse_string(data: Seq<u8>, pos: int) -> Result<(Seq<char>, int), DecodeError> {
    match parse_u32(data, pos) {
        Ok((length, start)) => match take_spec(data, start, length as int) {
            Ok(bytes) => if valid_utf8(bytes) {
                Ok((decode_utf8(bytes), start + length))
            } else {
                Err(DecodeError::InvalidUtf8 { offset: start as usize })
            },
            Err(e) => Err(e),
        },
        Err(e) => Err(e),
    }
}

pub open spec fn length_bytes(length: nat) -> Seq<u8> {
    le_bytes(length, 4)
}

/// A length the format gives 32 bits, or the overflow that keeps it from being written.
pub open spec fn length_encoding(what: &'static str, length: nat) -> Result<Seq<u8>, EncodeError> {
    if length > u32::MAX {
        Err(EncodeError::Overflow { what, value: length as usize })
    } else {
        Ok(length_bytes(length))
    }
}

pub open spec fn string_encoding(chars: Seq<char>) -> Result<Seq<u8>, EncodeError> {
    let bytes = encode_utf8(chars);
    match length_encoding("string length", bytes.len()) {
        Ok(prefix) => Ok(prefix + bytes),
        Err(e) => Err(e),
    }
}

/// How `encode` leaves a writer, given what the value encodes to.
pub open spec fn encoded(
    encoding: Result<Seq<u8>, EncodeError>,
    result: Result<(), EncodeError>,
    before: Seq<u8>,
    after: Seq<u8>,
) -> bool {
    match encoding {
        Ok(bytes) => result is Ok && after == before + bytes,
        Err(e) => result == Err::<(), EncodeError>(e),
    }
}

/// How `decode` ends, given what the bytes parse to.
pub open spec fn decoded<T: DeepView>(
    parsed: Result<(T::V, int), DecodeError>,
    result: Result<T, DecodeError>,
    end: int,
) -> bool {
    match parsed {
        Ok((value, next)) => result matches Ok(found) && found.deep_view() == value && end == next,
        Err(e) => result == Err::<T, DecodeError>(e),
    }
}

/// A value that can be written in the wire format.
pub trait Encode: DeepView {
    /// The bytes the value is written as, or the first reason it cannot be written.
    spec fn encoding(value: Self::V) -> Result<Seq<u8>, EncodeError>;

    /// Appends the value. On failure the writer may hold part of it.
    fn encode(&self, writer: &mut Writer) -> (result: Result<(), EncodeError>)
        ensures
            encoded(Self::encoding(self.deep_view()), result, old(writer)@, final(writer)@),
    ;
}

/// A value that can be read from the wire format.
pub trait Decode: Sized + DeepView {
    /// What reading at `pos` yields: the value and where it ends, or the first error on the way.
    spec fn parse(data: Seq<u8>, pos: int) -> Result<(Self::V, int), DecodeError>;

    /// Reads the value at the reader's position.
    fn decode(reader: &mut Reader<'_>) -> (result: Result<Self, DecodeError>)
        ensures
            final(reader).data() == old(reader).data(),
            decoded(Self::parse(old(reader).data(), old(reader).pos()), result, final(reader).pos()),
    ;
}

/// A type whose reading gives back what its writing wrote.
pub trait WireFormat: Encode + Decode {
    /// Wherever the encoding of `value` stands in a byte sequence, parsing there yields `value`
    /// and ends right after the encoding.
    proof fn lemma_round_trip(value: <Self as DeepView>::V, data: Seq<u8>, pos: int)
        requires
            Self::encoding(value) is Ok,
            0 <= pos,
            pos + Self::encoding(value)->Ok_0.len() <= data.len(),
            data.subrange(pos, pos + Self::encoding(value)->Ok_0.len()) == Self::encoding(value)->Ok_0,
        ensures
            Self::parse(data, pos) == Ok::<_, DecodeError>(
                (value, pos + Self::encoding(value)->Ok_0.len()),
            ),
    ;
}

/* ---------------------------------------------------------------------------------------------
 * Writer
 * ------------------------------------------------------------------------------------------- */
/// Builds a payload by appending values in the wire format.
#[derive(Debug, Default)]
pub struct Writer {
    bytes: Vec<u8>,
}

impl View for Writer {
    type V = Seq<u8>;

    closed spec fn view(&self) -> Seq<u8> {
        self.bytes@
    }
}

impl Writer {
    pub fn new() -> (writer: Writer)
        ensures
            writer@ == Seq::<u8>::empty(),
    {
        Writer { bytes: Vec::new() }
    }

    pub fn into_bytes(self) -> (bytes: Vec<u8>)
        ensures
            bytes@ == self@,
    {
        self.bytes
    }

    pub fn len(&self) -> (len: usize)
        ensures
            len == self@.len(),
    {
        self.bytes.len()
    }

    pub fn is_empty(&self) -> (empty: bool)
        ensures
            empty == (self@.len() == 0),
    {
        self.bytes.len() == 0
    }

    pub fn u8(&mut self, value: u8)
        ensures
            final(self)@ == old(self)@.push(value),
    {
        self.bytes.push(value);
    }

    pub fn u16(&mut self, value: u16)
        ensures
            final(self)@ == old(self)@ + le_bytes(value as nat, 2),
    {
        push_le(&mut self.bytes, value as u64, 2);
    }

    pub fn u32(&mut self, value: u32)
        ensures
            final(self)@ == old(self)@ + le_bytes(value as nat, 4),
    {
        push_le(&mut self.bytes, value as u64, 4);
    }

    pub fn u64(&mut self, value: u64)
        ensures
            final(self)@ == old(self)@ + le_bytes(value as nat, 8),
    {
        push_le(&mut self.bytes, value, 8);
    }

    /// Writes the two's complement of `value` in four bytes.
    pub fn i32(&mut self, value: i32)
        ensures
            final(self)@ == old(self)@ + le_bytes(twos_complement(value as int, 4), 4),
    {
        proof {
            lemma_byte_bound_values();
        }
        let stored: u64 = if value >= 0 {
            value as u64
        } else {
            (value as i64 + 0x1_0000_0000i64) as u64
        };
        push_le(&mut self.bytes, stored, 4);
    }

    /// Writes the two's complement of `value` in eight bytes.
    pub fn i64(&mut self, value: i64)
        ensures
            final(self)@ == old(self)@ + le_bytes(twos_complement(value as int, 8), 8),
    {
        proof {
            lemma_byte_bound_values();
        }
        let stored: u64 = if value >= 0 {
            value as u64
        } else {
            ((value + 0x7fff_ffff_ffff_ffffi64 + 1) as u64) + 0x8000_0000_0000_0000u64
        };
        push_le(&mut self.bytes, stored, 8);
    }

    /// Writes `1` for true and `0` for false.
    pub fn bool(&mut self, value: bool)
        ensures
            final(self)@ == old(self)@.push(if value { 1u8 } else { 0u8 }),
    {
        self.u8(if value { 1 } else { 0 });
    }

    pub fn bytes(&mut self, bytes: &[u8])
        ensures
            final(self)@ == old(self)@ + bytes@,
    {
        let mut i: usize = 0;
        while i < bytes.len()
            invariant
                i <= bytes@.len(),
                self@ == old(self)@ + bytes@.subrange(0, i as int),
            decreases bytes@.len() - i,
        {
            self.bytes.push(bytes[i]);
            i = i + 1;
            assert(self@ =~= old(self)@ + bytes@.subrange(0, i as int));
        }
        assert(bytes@.subrange(0, bytes@.len() as int) =~= bytes@);
    }

    /// Writes a length in four bytes, or reports that it does not fit in them.
    pub fn length(&mut self, what: &'static str, value: usize) -> (result: Result<(), EncodeError>)
        ensures
            encoded(length_encoding(what, value as nat), result, old(self)@, final(self)@),
            result is Err ==> final(self)@ == old(self)@,
    {
        if value > u32::MAX as usize {
            return Err(EncodeError::Overflow { what, value });
        }
        self.u32(value as u32);
        Ok(())
    }

    /// Writes the byte length of `value` and then its UTF-8 bytes.
    pub fn string(&mut self, value: &str) -> (result: Result<(), EncodeError>)
        ensures
            encoded(string_encoding(value@), result, old(self)@, final(self)@),
            result is Err ==> final(self)@ == old(self)@,
    {
        let bytes = value.as_bytes();
        let length = bytes.len();
        match self.length("string length", length) {
            Ok(()) => {},
            Err(e) => {
                assert(length_encoding("string length", length as nat) == Err::<Seq<u8>, EncodeError>(e));
                return Err(e);
            },
        }
        self.bytes(bytes);
        assert(self@ =~= old(self)@ + (length_bytes(length as nat) + encode_utf8(value@)));
        Ok(())
    }
}

/* ---------------------------------------------------------------------------------------------
 * Reader
 * ------------------------------------------------------------------------------------------- */
/// Reads values in the wire format from a payload, front to back.
#[derive(Debug)]
pub struct Reader<'a> {
    bytes: &'a [u8],
    position: usize,
}

/// Converts bytes to a string when they are valid UTF-8, through `std::str::from_utf8`. Its
/// documentation promises success exactly for well-formed UTF-8 and a string slice of the same
/// bytes; the claim here is that the string holds the characters those bytes encode.
#[verifier::external_body]
pub(crate) fn string_from_utf8(bytes: &[u8]) -> (text: Option<String>)
    ensures
        text is Some <==> valid_utf8(bytes@),
        text matches Some(s) ==> s@ == decode_utf8(bytes@),
{
    match std::str::from_utf8(bytes) {
        Ok(text) => Some(text.to_owned()),
        Err(_) => None,
    }
}

impl<'a> Reader<'a> {
    #[verifier::type_invariant]
    spec fn inside(self) -> bool {
        self.position <= self.bytes@.len()
    }

    /// The payload being read.
    pub closed spec fn data(&self) -> Seq<u8> {
        self.bytes@
    }

    /// How many bytes have been read.
    pub closed spec fn pos(&self) -> int {
        self.position as int
    }

    pub fn new(bytes: &'a [u8]) -> (reader: Reader<'a>)
        ensures
            reader.data() == bytes@,
            reader.pos() == 0,
    {
        Reader { bytes, position: 0 }
    }

    pub fn position(&self) -> (position: usize)
        ensures
            position == self.pos(),
    {
        self.position
    }

    pub fn remaining(&self) -> (remaining: usize)
        ensures
            remaining == self.data().len() - self.pos(),
    {
        proof {
            use_type_invariant(self);
        }
        self.bytes.len() - self.position
    }

    /// Succeeds when every byte has been read.
    pub fn finish(self) -> (result: Result<(), DecodeError>)
        ensures
            result == if self.pos() == self.data().len() {
                Ok(())
            } else {
                Err(DecodeError::TrailingBytes((self.data().len() - self.pos()) as usize))
            },
    {
        let remaining = self.remaining();
        if remaining == 0 {
            Ok(())
        } else {
            Err(DecodeError::TrailingBytes(remaining))
        }
    }

    /// Reads a value of any type that has a wire form.
    pub fn decode<T: Decode>(&mut self) -> (result: Result<T, DecodeError>)
        ensures
            final(self).data() == old(self).data(),
            decoded(T::parse(old(self).data(), old(self).pos()), result, final(self).pos()),
    {
        T::decode(self)
    }

    fn take(&mut self, needed: usize) -> (result: Result<&'a [u8], DecodeError>)
        ensures
            final(self).data() == old(self).data(),
            match take_spec(old(self).data(), old(self).pos(), needed as int) {
                Ok(bytes) => result matches Ok(found) && found@ == bytes && final(self).pos() == old(
                    self,
                ).pos() + needed,
                Err(e) => result == Err::<&'a [u8], DecodeError>(e) && *final(self) == *old(self),
            },
    {
        proof {
            use_type_invariant(&*self);
        }
        let remaining = self.bytes.len() - self.position;
        if needed > remaining {
            return Err(DecodeError::UnexpectedEnd { offset: self.position, needed, remaining });
        }
        let bytes = &self.bytes[self.position..self.position + needed];
        self.position = self.position + needed;
        Ok(bytes)
    }

    fn unsigned(&mut self, width: usize) -> (result: Result<u64, DecodeError>)
        requires
            width <= 8,
        ensures
            final(self).data() == old(self).data(),
            match parse_unsigned(old(self).data(), old(self).pos(), width as int) {
                Ok((value, end)) => result == Ok::<u64, DecodeError>(value as u64) && final(self).pos()
                    == end,
                Err(e) => result == Err::<u64, DecodeError>(e),
            },
    {
        let bytes = self.take(width)?;
        let value = read_le(bytes, 0, width);
        assert(bytes@.subrange(0, width as int) =~= bytes@);
        Ok(value)
    }

    pub fn u8(&mut self) -> (result: Result<u8, DecodeError>)
        ensures
            final(self).data() == old(self).data(),
            decoded(parse_u8(old(self).data(), old(self).pos()), result, final(self).pos()),
    {
        let bytes = self.take(1)?;
        Ok(bytes[0])
    }

    pub fn u16(&mut self) -> (result: Result<u16, DecodeError>)
        ensures
            final(self).data() == old(self).data(),
            decoded(parse_u16(old(self).data(), old(self).pos()), result, final(self).pos()),
    {
        let value = self.unsigned(2)?;
        proof {
            lemma_byte_bound_values();
            lemma_le_value_bound(old(self).data().subrange(old(self).pos(), old(self).pos() + 2));
        }
        Ok(value as u16)
    }

    pub fn u32(&mut self) -> (result: Result<u32, DecodeError>)
        ensures
            final(self).data() == old(self).data(),
            decoded(parse_u32(old(self).data(), old(self).pos()), result, final(self).pos()),
    {
        let value = self.unsigned(4)?;
        proof {
            lemma_byte_bound_values();
            lemma_le_value_bound(old(self).data().subrange(old(self).pos(), old(self).pos() + 4));
        }
        Ok(value as u32)
    }

    pub fn u64(&mut self) -> (result: Result<u64, DecodeError>)
        ensures
            final(self).data() == old(self).data(),
            decoded(parse_u64(old(self).data(), old(self).pos()), result, final(self).pos()),
    {
        let value = self.unsigned(8)?;
        proof {
            lemma_byte_bound_values();
            lemma_le_value_bound(old(self).data().subrange(old(self).pos(), old(self).pos() + 8));
        }
        Ok(value)
    }

    pub fn i32(&mut self) -> (result: Result<i32, DecodeError>)
        ensures
            final(self).data() == old(self).data(),
            decoded(parse_i32(old(self).data(), old(self).pos()), result, final(self).pos()),
    {
        let value = self.unsigned(4)?;
        proof {
            lemma_byte_bound_values();
            lemma_le_value_bound(old(self).data().subrange(old(self).pos(), old(self).pos() + 4));
        }
        let signed: i32 = if value < 0x8000_0000 {
            value as i32
        } else {
            ((value - 0x8000_0000) as i32) - 0x7fff_ffff - 1
        };
        Ok(signed)
    }

    pub fn i64(&mut self) -> (result: Result<i64, DecodeError>)
        ensures
            final(self).data() == old(self).data(),
            decoded(parse_i64(old(self).data(), old(self).pos()), result, final(self).pos()),
    {
        let value = self.unsigned(8)?;
        proof {
            lemma_byte_bound_values();
            lemma_le_value_bound(old(self).data().subrange(old(self).pos(), old(self).pos() + 8));
        }
        let signed: i64 = if value < 0x8000_0000_0000_0000 {
            value as i64
        } else {
            ((value - 0x8000_0000_0000_0000) as i64) - 0x7fff_ffff_ffff_ffff - 1
        };
        Ok(signed)
    }

    /// Reads `0` as false and `1` as true; any other byte is an error.
    pub fn bool(&mut self) -> (result: Result<bool, DecodeError>)
        ensures
            final(self).data() == old(self).data(),
            decoded(parse_bool(old(self).data(), old(self).pos()), result, final(self).pos()),
    {
        let byte = self.u8()?;
        if byte == 0 {
            Ok(false)
        } else if byte == 1 {
            Ok(true)
        } else {
            Err(DecodeError::InvalidBool(byte))
        }
    }

    /// Reads a four-byte length. `usize` is at least 32 bits wide on every supported platform, so
    /// every `u32` fits and `LengthOverflow` never comes from here.
    pub fn length(&mut self, what: &'static str) -> (result: Result<usize, DecodeError>)
        ensures
            final(self).data() == old(self).data(),
            match parse_u32(old(self).data(), old(self).pos()) {
                Ok((value, end)) => result == Ok::<usize, DecodeError>(value as usize) && final(self).pos()
                    == end,
                Err(e) => result == Err::<usize, DecodeError>(e),
            },
    {
        let value = self.u32()?;
        Ok(value as usize)
    }

    /// Reads a byte length and that many bytes of UTF-8.
    pub fn string(&mut self) -> (result: Result<String, DecodeError>)
        ensures
            final(self).data() == old(self).data(),
            decoded(parse_string(old(self).data(), old(self).pos()), result, final(self).pos()),
    {
        let length = self.length("string length")?;
        let offset = self.position;
        let bytes = self.take(length)?;
        match string_from_utf8(bytes) {
            Some(text) => Ok(text),
            None => Err(DecodeError::InvalidUtf8 { offset }),
        }
    }
}

} // verus!
