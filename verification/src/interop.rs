//! Whole blobs: a header followed by one value in the wire format.
use vstd::prelude::*;

use crate::diagnostics::Diagnostics;
use crate::header::{law_blob_round_trip, read_blob, read_blob_spec, write_blob, write_blob_spec, BlobKind};
use crate::wire::{Decode, DecodeError, Encode, EncodeError, Reader, WireFormat, Writer};

verus! {

/// What encoding `value` as a blob of `kind` yields.
pub open spec fn encode_blob_spec<T: Encode>(kind: BlobKind, value: T::V) -> Result<Seq<u8>, EncodeError> {
    match T::encoding(value) {
        Ok(payload) => write_blob_spec(kind, payload),
        Err(e) => Err(e),
    }
}

/// What decoding `bytes` as a blob of `kind` holding one `T` yields: every payload byte must belong
/// to the value.
pub open spec fn decode_blob_spec<T: Decode>(kind: BlobKind, bytes: Seq<u8>) -> Result<T::V, DecodeError> {
    match read_blob_spec(kind, bytes) {
        Ok(payload) => match T::parse(payload, 0) {
            Ok((value, end)) => if end == payload.len() {
                Ok(value)
            } else {
                Err(DecodeError::TrailingBytes((payload.len() - end) as usize))
            },
            Err(e) => Err(e),
        },
        Err(e) => Err(e),
    }
}

pub fn encode_blob<T: Encode>(kind: BlobKind, value: &T) -> (result: Result<Vec<u8>, EncodeError>)
    ensures
        match encode_blob_spec::<T>(kind, value.deep_view()) {
            Ok(bytes) => result matches Ok(found) && found@ == bytes,
            Err(e) => result == Err::<Vec<u8>, EncodeError>(e),
        },
{
    let mut writer = Writer::new();
    value.encode(&mut writer)?;
    let payload = writer.into_bytes();
    write_blob(kind, payload.as_slice())
}

pub fn decode_blob<T: Decode>(kind: BlobKind, bytes: &[u8]) -> (result: Result<T, DecodeError>)
    ensures
        match decode_blob_spec::<T>(kind, bytes@) {
            Ok(value) => result matches Ok(found) && found.deep_view() == value,
            Err(e) => result == Err::<T, DecodeError>(e),
        },
{
    let payload = read_blob(kind, bytes)?;
    let mut reader = Reader::new(payload);
    let value = T::decode(&mut reader)?;
    reader.finish()?;
    Ok(value)
}

/// Encodes diagnostics into a complete diagnostics blob, header included.
pub fn encode_diagnostics(diagnostics: &Diagnostics) -> (result: Result<Vec<u8>, EncodeError>)
    ensures
        match encode_blob_spec::<Diagnostics>(BlobKind::Diagnostics, diagnostics.deep_view()) {
            Ok(bytes) => result matches Ok(found) && found@ == bytes,
            Err(e) => result == Err::<Vec<u8>, EncodeError>(e),
        },
{
    encode_blob(BlobKind::Diagnostics, diagnostics)
}

/// Decodes a complete diagnostics blob, checking the header and every byte of the payload.
pub fn decode_diagnostics(bytes: &[u8]) -> (result: Result<Diagnostics, DecodeError>)
    ensures
        match decode_blob_spec::<Diagnostics>(BlobKind::Diagnostics, bytes@) {
            Ok(value) => result matches Ok(found) && found.deep_view() == value,
            Err(e) => result == Err::<Diagnostics, DecodeError>(e),
        },
{
    decode_blob(BlobKind::Diagnostics, bytes)
}

/// Decoding what was encoded, as the same kind of blob, gives the value back.
pub proof fn law_blob_value_round_trip<T: WireFormat>(kind: BlobKind, value: <T as DeepView>::V)
    requires
        encode_blob_spec::<T>(kind, value) is Ok,
    ensures
        decode_blob_spec::<T>(kind, encode_blob_spec::<T>(kind, value)->Ok_0) == Ok::<
            <T as DeepView>::V,
            DecodeError,
        >(value),
{
    let payload = T::encoding(value)->Ok_0;
    law_blob_round_trip(kind, payload);
    assert(payload.subrange(0, payload.len() as int) =~= payload);
    T::lemma_round_trip(value, payload, 0);
}

/// What a client reads back from an encoded diagnostics blob is exactly the diagnostics that were
/// encoded: the same stage, and the same messages and locations in the same order.
pub proof fn law_diagnostics_round_trip(diagnostics: (
    crate::diagnostics::DiagnosticStage,
    Seq<(Option<(Seq<char>, u32)>, Seq<char>)>,
))
    requires
        encode_blob_spec::<Diagnostics>(BlobKind::Diagnostics, diagnostics) is Ok,
    ensures
        decode_blob_spec::<Diagnostics>(
            BlobKind::Diagnostics,
            encode_blob_spec::<Diagnostics>(BlobKind::Diagnostics, diagnostics)->Ok_0,
        ) == Ok::<_, DecodeError>(diagnostics),
{
    law_blob_value_round_trip::<Diagnostics>(BlobKind::Diagnostics, diagnostics);
}

} // verus!
