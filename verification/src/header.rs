//! The 16-byte header every blob starts with: magic, schema version, data version, a reserved
//! word and the payload length, all little-endian.
use vstd::prelude::*;

use crate::bytes::{le_bytes, le_value, lemma_byte_bound_values, lemma_le_bytes_len, lemma_le_round_trip, push_le, read_le};
use crate::wire::{DecodeError, EncodeError};

verus! {

pub const HEADER_LEN: usize = 16;

pub const SCHEMA_VERSION: u16 = 1;

pub const AVATAR_MAGIC: [u8; 4] = [0x44, 0x41, 0x32, 0x61];

pub const AVATAR_DATA_VERSION: u16 = 1;

pub const DIAGNOSTICS_MAGIC: [u8; 4] = [0x44, 0x41, 0x32, 0x64];

pub const DIAGNOSTICS_DATA_VERSION: u16 = 1;

/// What a blob carries.
#[derive(Debug, Clone, Copy, PartialEq, Eq, Structural, Hash)]
pub enum BlobKind {
    Avatar,
    Diagnostics,
}

/// The four bytes `D`, `A`, `2` and then `a` for an avatar or `d` for diagnostics.
pub open spec fn magic_bytes(kind: BlobKind) -> Seq<u8> {
    match kind {
        BlobKind::Avatar => seq![0x44u8, 0x41u8, 0x32u8, 0x61u8],
        BlobKind::Diagnostics => seq![0x44u8, 0x41u8, 0x32u8, 0x64u8],
    }
}

/// The kind whose magic `magic` is, if any.
pub open spec fn kind_of_magic(magic: Seq<u8>) -> Option<BlobKind> {
    if magic == magic_bytes(BlobKind::Avatar) {
        Some(BlobKind::Avatar)
    } else if magic == magic_bytes(BlobKind::Diagnostics) {
        Some(BlobKind::Diagnostics)
    } else {
        None
    }
}

impl BlobKind {
    pub open spec fn spec_data_version(self) -> u16 {
        match self {
            BlobKind::Avatar => AVATAR_DATA_VERSION,
            BlobKind::Diagnostics => DIAGNOSTICS_DATA_VERSION,
        }
    }

    pub fn magic(self) -> (magic: [u8; 4])
        ensures
            magic@ == magic_bytes(self),
    {
        let magic = match self {
            BlobKind::Avatar => AVATAR_MAGIC,
            BlobKind::Diagnostics => DIAGNOSTICS_MAGIC,
        };
        assert(magic@ =~= magic_bytes(self));
        magic
    }

    pub fn data_version(self) -> (version: u16)
        ensures
            version == self.spec_data_version(),
    {
        match self {
            BlobKind::Avatar => AVATAR_DATA_VERSION,
            BlobKind::Diagnostics => DIAGNOSTICS_DATA_VERSION,
        }
    }

    pub fn of_magic(magic: [u8; 4]) -> (kind: Option<BlobKind>)
        ensures
            kind == kind_of_magic(magic@),
    {
        let leading = magic[0] == 0x44 && magic[1] == 0x41 && magic[2] == 0x32;
        if leading && magic[3] == 0x61 {
            assert(magic@ =~= magic_bytes(BlobKind::Avatar));
            Some(BlobKind::Avatar)
        } else if leading && magic[3] == 0x64 {
            assert(magic@ =~= magic_bytes(BlobKind::Diagnostics));
            Some(BlobKind::Diagnostics)
        } else {
            None
        }
    }
}

/// The header that introduces a payload of `payload_len` bytes.
pub open spec fn header_bytes(kind: BlobKind, payload_len: nat) -> Seq<u8> {
    magic_bytes(kind) + le_bytes(SCHEMA_VERSION as nat, 2) + le_bytes(kind.spec_data_version() as nat, 2)
        + le_bytes(0, 4) + le_bytes(payload_len, 4)
}

/// A whole blob: the header, then the payload.
pub open spec fn blob_bytes(kind: BlobKind, payload: Seq<u8>) -> Seq<u8> {
    header_bytes(kind, payload.len()) + payload
}

/// What writing `payload` as a blob of `kind` yields.
pub open spec fn write_blob_spec(kind: BlobKind, payload: Seq<u8>) -> Result<Seq<u8>, EncodeError> {
    if payload.len() > u32::MAX {
        Err(EncodeError::Overflow { what: "payload length", value: payload.len() as usize })
    } else {
        Ok(blob_bytes(kind, payload))
    }
}

/// The little-endian number in `bytes[start..end]`.
pub open spec fn field(bytes: Seq<u8>, start: int, end: int) -> nat {
    le_value(bytes.subrange(start, end))
}

/// Whether `error` is the first thing wrong with the header of `bytes`, read as a blob of `expected`,
/// or, when the header is sound, `Ok` with the payload.
pub open spec fn read_blob_spec(expected: BlobKind, bytes: Seq<u8>) -> Result<Seq<u8>, DecodeError> {
    if bytes.len() < HEADER_LEN {
        Err(DecodeError::TruncatedHeader { found: bytes.len() as usize })
    } else {
        match kind_of_magic(bytes.subrange(0, 4)) {
            None => Err(DecodeError::UnknownMagic([bytes[0], bytes[1], bytes[2], bytes[3]])),
            Some(found) => if found != expected {
                Err(DecodeError::UnexpectedKind { expected, found })
            } else if field(bytes, 4, 6) != SCHEMA_VERSION {
                Err(
                    DecodeError::SchemaVersionMismatch {
                        expected: SCHEMA_VERSION,
                        found: field(bytes, 4, 6) as u16,
                    },
                )
            } else if field(bytes, 6, 8) != found.spec_data_version() {
                Err(
                    DecodeError::DataVersionMismatch {
                        kind: found,
                        expected: found.spec_data_version(),
                        found: field(bytes, 6, 8) as u16,
                    },
                )
            } else if field(bytes, 8, 12) != 0 {
                Err(DecodeError::ReservedNotZero(field(bytes, 8, 12) as u32))
            } else if field(bytes, 12, 16) != bytes.len() - HEADER_LEN {
                Err(
                    DecodeError::LengthMismatch {
                        declared: field(bytes, 12, 16) as u32,
                        actual: (bytes.len() - HEADER_LEN) as usize,
                    },
                )
            } else {
                Ok(bytes.subrange(HEADER_LEN as int, bytes.len() as int))
            },
        }
    }
}

/// Puts the header for `kind` in front of `payload`.
pub fn write_blob(kind: BlobKind, payload: &[u8]) -> (result: Result<Vec<u8>, EncodeError>)
    ensures
        match write_blob_spec(kind, payload@) {
            Ok(bytes) => result matches Ok(found) && found@ == bytes,
            Err(e) => result == Err::<Vec<u8>, EncodeError>(e),
        },
{
    let payload_len = payload.len();
    if payload_len > u32::MAX as usize {
        return Err(EncodeError::Overflow { what: "payload length", value: payload_len });
    }
    let mut bytes: Vec<u8> = Vec::new();
    let magic = kind.magic();
    bytes.push(magic[0]);
    bytes.push(magic[1]);
    bytes.push(magic[2]);
    bytes.push(magic[3]);
    assert(bytes@ =~= magic_bytes(kind));
    push_le(&mut bytes, SCHEMA_VERSION as u64, 2);
    push_le(&mut bytes, kind.data_version() as u64, 2);
    push_le(&mut bytes, 0, 4);
    push_le(&mut bytes, payload_len as u64, 4);
    let mut i: usize = 0;
    while i < payload_len
        invariant
            i <= payload_len == payload@.len(),
            bytes@ == header_bytes(kind, payload_len as nat) + payload@.subrange(0, i as int),
        decreases payload_len - i,
    {
        bytes.push(payload[i]);
        i = i + 1;
        assert(bytes@ =~= header_bytes(kind, payload_len as nat) + payload@.subrange(0, i as int));
    }
    assert(payload@.subrange(0, payload_len as int) =~= payload@);
    Ok(bytes)
}

/// Checks the header of `bytes` against `expected` and hands back the payload after it.
pub fn read_blob(expected: BlobKind, bytes: &[u8]) -> (result: Result<&[u8], DecodeError>)
    ensures
        match read_blob_spec(expected, bytes@) {
            Ok(payload) => result matches Ok(found) && found@ == payload,
            Err(e) => result == Err::<&[u8], DecodeError>(e),
        },
{
    let total = bytes.len();
    if total < HEADER_LEN {
        return Err(DecodeError::TruncatedHeader { found: total });
    }
    let magic: [u8; 4] = [bytes[0], bytes[1], bytes[2], bytes[3]];
    assert(magic@ =~= bytes@.subrange(0, 4));
    let found = match BlobKind::of_magic(magic) {
        Some(kind) => kind,
        None => return Err(DecodeError::UnknownMagic(magic)),
    };
    if found != expected {
        return Err(DecodeError::UnexpectedKind { expected, found });
    }
    proof {
        lemma_byte_bound_values();
        crate::bytes::lemma_le_value_bound(bytes@.subrange(4, 6));
        crate::bytes::lemma_le_value_bound(bytes@.subrange(6, 8));
        crate::bytes::lemma_le_value_bound(bytes@.subrange(8, 12));
        crate::bytes::lemma_le_value_bound(bytes@.subrange(12, 16));
    }
    let schema_version = read_le(bytes, 4, 2) as u16;
    if schema_version != SCHEMA_VERSION {
        return Err(DecodeError::SchemaVersionMismatch { expected: SCHEMA_VERSION, found: schema_version });
    }
    let data_version = read_le(bytes, 6, 2) as u16;
    if data_version != found.data_version() {
        return Err(
            DecodeError::DataVersionMismatch {
                kind: found,
                expected: found.data_version(),
                found: data_version,
            },
        );
    }
    let reserved = read_le(bytes, 8, 4) as u32;
    if reserved != 0 {
        return Err(DecodeError::ReservedNotZero(reserved));
    }
    let payload_len = read_le(bytes, 12, 4) as u32;
    let actual = total - HEADER_LEN;
    if payload_len as usize != actual {
        return Err(DecodeError::LengthMismatch { declared: payload_len, actual });
    }
    Ok(&bytes[HEADER_LEN..total])
}

/// Reading a written blob back as the same kind gives the payload it was written with.
pub proof fn law_blob_round_trip(kind: BlobKind, payload: Seq<u8>)
    requires
        payload.len() <= u32::MAX,
    ensures
        write_blob_spec(kind, payload) matches Ok(bytes) && read_blob_spec(kind, bytes) == Ok::<
            Seq<u8>,
            DecodeError,
        >(payload),
{
    let bytes = blob_bytes(kind, payload);
    lemma_byte_bound_values();
    lemma_le_bytes_len(1, 2);
    lemma_le_bytes_len(kind.spec_data_version() as nat, 2);
    lemma_le_bytes_len(0, 4);
    lemma_le_bytes_len(payload.len(), 4);
    lemma_le_round_trip(1, 2);
    lemma_le_round_trip(kind.spec_data_version() as nat, 2);
    lemma_le_round_trip(0, 4);
    lemma_le_round_trip(payload.len(), 4);
    let header = header_bytes(kind, payload.len());
    assert(bytes.subrange(0, 4) =~= magic_bytes(kind));
    assert(bytes.subrange(4, 6) =~= le_bytes(1, 2));
    assert(bytes.subrange(6, 8) =~= le_bytes(kind.spec_data_version() as nat, 2));
    assert(bytes.subrange(8, 12) =~= le_bytes(0, 4));
    assert(bytes.subrange(12, 16) =~= le_bytes(payload.len(), 4));
    assert(bytes.subrange(16, bytes.len() as int) =~= payload);
    assert(magic_bytes(BlobKind::Avatar) != magic_bytes(BlobKind::Diagnostics)) by {
        assert(magic_bytes(BlobKind::Avatar)[3] != magic_bytes(BlobKind::Diagnostics)[3]);
    }
}

} // verus!
