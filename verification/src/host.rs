//! What the C interface decides for its caller: the status of each call, the text it accepts and
//! the blob it keeps between calls. Reading raw pointers and catching panics is left to the
//! exported functions themselves.
use vstd::prelude::*;

use crate::compile::{diagnostics_of, report, CompileError};
use crate::diagnostics::Diagnostics;
use crate::header::{AVATAR_DATA_VERSION, BlobKind, DIAGNOSTICS_DATA_VERSION, SCHEMA_VERSION};
use crate::interop::encode_diagnostics;
use crate::modules::EvaluateOptions;
use crate::wire::{string_from_utf8, EncodeError};
use vstd::utf8::{decode_utf8, valid_utf8};

verus! {

/// Outcome of a call. Values below 100 are ordinary outcomes, 100 to 199 are caller mistakes and
/// 200 and above are faults of the library.
#[derive(Debug, Clone, Copy, PartialEq, Eq, Structural)]
pub enum Da2Status {
    /// The call succeeded. After a compile, the result is an avatar blob.
    Success,
    /// The script was rejected. The result is a diagnostics blob.
    CompileFailed,
    /// A required pointer was null.
    InvalidPointer,
    /// A string was not valid UTF-8.
    InvalidUtf8,
    /// The context holds no result because nothing has been compiled since it was created or reset.
    NoResult,
    /// The compiled data could not be encoded into a blob.
    EncodeFailed,
    /// The library panicked. The context may be left inconsistent and should be freed.
    Panicked,
}

/// The number a status is reported as across the C interface.
pub open spec fn status_code(status: Da2Status) -> u32 {
    match status {
        Da2Status::Success => 0,
        Da2Status::CompileFailed => 1,
        Da2Status::InvalidPointer => 100,
        Da2Status::InvalidUtf8 => 101,
        Da2Status::NoResult => 102,
        Da2Status::EncodeFailed => 200,
        Da2Status::Panicked => 201,
    }
}

impl Da2Status {
    pub fn code(self) -> (code: u32)
        ensures
            code == status_code(self),
    {
        match self {
            Da2Status::Success => 0,
            Da2Status::CompileFailed => 1,
            Da2Status::InvalidPointer => 100,
            Da2Status::InvalidUtf8 => 101,
            Da2Status::NoResult => 102,
            Da2Status::EncodeFailed => 200,
            Da2Status::Panicked => 201,
        }
    }
}

/// Every status has a number of its own.
pub proof fn law_status_codes_are_distinct(first: Da2Status, second: Da2Status)
    ensures
        status_code(first) == status_code(second) <==> first == second,
{
}

/// Ordinary outcomes are numbered below 100, mistakes of the caller from 100 to 199, and faults
/// of the library from 200 on.
pub proof fn law_status_classes(status: Da2Status)
    ensures
        status_code(status) < 100 <==> (status is Success || status is CompileFailed),
        100 <= status_code(status) < 200 <==> (status is InvalidPointer || status is InvalidUtf8
            || status is NoResult),
        200 <= status_code(status) <==> (status is EncodeFailed || status is Panicked),
{
}

/// The status of a call that either succeeded or stopped at a status.
pub fn status(result: Result<(), Da2Status>) -> (status: Da2Status)
    ensures
        status == match result {
            Ok(()) => Da2Status::Success,
            Err(status) => status,
        },
{
    match result {
        Ok(()) => Da2Status::Success,
        Err(status) => status,
    }
}

/// The interop format versions this library writes.
#[derive(Debug, Clone, Copy, PartialEq, Eq, Structural)]
pub struct Da2FormatVersions {
    pub schema: u16,
    pub avatar_data: u16,
    pub diagnostics_data: u16,
}

/// Reports the interop format versions, so that a client can refuse a mismatched library before
/// compiling anything.
pub fn format_versions() -> (versions: Da2FormatVersions)
    ensures
        versions == (Da2FormatVersions {
            schema: SCHEMA_VERSION,
            avatar_data: AVATAR_DATA_VERSION,
            diagnostics_data: DIAGNOSTICS_DATA_VERSION,
        }),
{
    Da2FormatVersions {
        schema: SCHEMA_VERSION,
        avatar_data: AVATAR_DATA_VERSION,
        diagnostics_data: DIAGNOSTICS_DATA_VERSION,
    }
}

/// Borrowed text as the caller passed it: the bytes behind the pointer, or `None` for a null
/// pointer, with the length the caller declared.
pub open spec fn text_result(bytes: Option<Seq<u8>>, len: u32) -> Result<Seq<char>, Da2Status> {
    match bytes {
        None => if len == 0 {
            Ok(Seq::empty())
        } else {
            Err(Da2Status::InvalidPointer)
        },
        Some(bytes) => if valid_utf8(bytes) {
            Ok(decode_utf8(bytes))
        } else {
            Err(Da2Status::InvalidUtf8)
        },
    }
}

/// The bytes behind a pointer, or `None` for a null pointer.
pub open spec fn bytes_of(bytes: Option<&[u8]>) -> Option<Seq<u8>> {
    match bytes {
        Some(bytes) => Some(bytes@),
        None => None,
    }
}

/// Accepts the text a caller passed. A null pointer with zero length is the empty string; a null
/// pointer with a length is refused, and so are bytes that are not UTF-8.
pub fn text(bytes: Option<&[u8]>, len: u32) -> (text: Result<String, Da2Status>)
    ensures
        match text_result(bytes_of(bytes), len) {
            Ok(chars) => text matches Ok(s) && s@ == chars,
            Err(status) => text == Err::<String, Da2Status>(status),
        },
{
    match bytes {
        None => if len == 0 {
            let empty = String::new();
            Ok(empty)
        } else {
            Err(Da2Status::InvalidPointer)
        },
        Some(bytes) => match string_from_utf8(bytes) {
            Some(text) => Ok(text),
            None => Err(Da2Status::InvalidUtf8),
        },
    }
}

/// The status a stored blob of this kind is reported with.
pub open spec fn stored_status(kind: BlobKind) -> Da2Status {
    match kind {
        BlobKind::Avatar => Da2Status::Success,
        BlobKind::Diagnostics => Da2Status::CompileFailed,
    }
}

/// Everything the library keeps for a caller: the compile options and the last result.
///
/// A context is not thread-safe. Different contexts may be used from different threads at the
/// same time.
pub struct Da2Context<C> {
    options: EvaluateOptions<C>,
    result: Option<Vec<u8>>,
}

impl<C> Da2Context<C> {
    pub closed spec fn wf(&self) -> bool {
        self.options.wf()
    }

    /// The options later compiles use.
    pub closed spec fn options(&self) -> EvaluateOptions<C> {
        self.options
    }

    /// The blob the last compile stored, if any.
    pub closed spec fn stored(&self) -> Option<Seq<u8>> {
        match self.result {
            Some(bytes) => Some(bytes@),
            None => None,
        }
    }

    /// A context with no symbols, no library paths and no result.
    pub fn new() -> (context: Da2Context<C>)
        ensures
            context.wf(),
            context.options().symbol_set() == Set::<Seq<char>>::empty(),
            context.options().loaders().len() == 0,
            context.stored() is None,
    {
        Da2Context { options: EvaluateOptions::new(), result: None }
    }

    /// Makes `da.symbol(name)` report the symbol as supplied in later compiles.
    pub fn add_symbol(&mut self, name: String)
        requires
            old(self).wf(),
        ensures
            final(self).wf(),
            final(self).options().symbol_set() == old(self).options().symbol_set().insert(name@),
            final(self).options().loaders() == old(self).options().loaders(),
            final(self).stored() == old(self).stored(),
    {
        let mut options = EvaluateOptions::new();
        std::mem::swap(&mut options, &mut self.options);
        let ghost before = options.symbol_set();
        let names = vec![name];
        self.options = options.symbols(names);
        proof {
            let added = Set::new(|n: Seq<char>| exists|i: int| 0 <= i < names@.len() && names@[i]@ == n);
            assert(added =~= set![name@]) by {
                assert(names@[0]@ == name@);
            }
            assert(before.union(added) =~= before.insert(name@));
        }
    }

    /// Appends a directory that `require` searches in later compiles, after the ones already added.
    pub fn add_library_path(&mut self, path: String)
        requires
            old(self).wf(),
        ensures
            final(self).wf(),
            final(self).options().symbol_set() == old(self).options().symbol_set(),
            final(self).options().loaders().drop_last() == old(self).options().loaders(),
            final(self).options().loaders().last() matches crate::modules::Loader::Directories(loader)
                && loader.directories().len() == 1 && loader.directories()[0]@ == path@,
            final(self).stored() == old(self).stored(),
    {
        let mut options = EvaluateOptions::new();
        std::mem::swap(&mut options, &mut self.options);
        let paths = vec![path];
        self.options = options.library_paths(paths);
    }

    /// Forgets every symbol, library path and result, returning the context to its initial state.
    pub fn reset(&mut self)
        ensures
            final(self).wf(),
            final(self).options().symbol_set() == Set::<Seq<char>>::empty(),
            final(self).options().loaders().len() == 0,
            final(self).stored() is None,
    {
        self.options = EvaluateOptions::new();
        self.result = None;
    }

    /// The options later compiles use.
    pub fn evaluate_options(&self) -> (options: &EvaluateOptions<C>)
        ensures
            *options == self.options(),
    {
        &self.options
    }

    /// Replaces the result with an encoded blob of `kind`, and reports the status of the compile
    /// that produced it. A blob that could not be encoded, or whose length does not fit the `u32`
    /// the C interface reports, leaves no result.
    pub fn store(&mut self, encoded: Result<Vec<u8>, EncodeError>, kind: BlobKind) -> (status: Da2Status)
        ensures
            final(self).options() == old(self).options(),
            final(self).wf() == old(self).wf(),
            match encoded {
                Ok(bytes) => if bytes@.len() <= u32::MAX {
                    status == stored_status(kind) && final(self).stored() == Some(bytes@)
                } else {
                    status == Da2Status::EncodeFailed && final(self).stored() is None
                },
                Err(_) => status == Da2Status::EncodeFailed && final(self).stored() is None,
            },
    {
        self.result = None;
        match encoded {
            Ok(bytes) => {
                if bytes.len() <= u32::MAX as usize {
                    self.result = Some(bytes);
                    match kind {
                        BlobKind::Avatar => Da2Status::Success,
                        BlobKind::Diagnostics => Da2Status::CompileFailed,
                    }
                } else {
                    Da2Status::EncodeFailed
                }
            },
            Err(_) => Da2Status::EncodeFailed,
        }
    }

    /// Stores the diagnostics of a rejected script as the result.
    pub fn store_diagnostics(&mut self, diagnostics: &Diagnostics) -> (status: Da2Status)
        ensures
            final(self).options() == old(self).options(),
            final(self).wf() == old(self).wf(),
            match crate::interop::encode_blob_spec::<Diagnostics>(BlobKind::Diagnostics, diagnostics.deep_view()) {
                Ok(bytes) => if bytes.len() <= u32::MAX {
                    status == Da2Status::CompileFailed && final(self).stored() == Some(bytes)
                } else {
                    status == Da2Status::EncodeFailed && final(self).stored() is None
                },
                Err(_) => status == Da2Status::EncodeFailed && final(self).stored() is None,
            },
    {
        let encoded = encode_diagnostics(diagnostics);
        self.store(encoded, BlobKind::Diagnostics)
    }

    /// Stores the diagnostics that report a failed compile as the result.
    pub fn store_failure(&mut self, error: &CompileError) -> (status: Da2Status)
        ensures
            final(self).options() == old(self).options(),
            final(self).wf() == old(self).wf(),
            match crate::interop::encode_blob_spec::<Diagnostics>(BlobKind::Diagnostics, diagnostics_of(*error)) {
                Ok(bytes) => if bytes.len() <= u32::MAX {
                    status == Da2Status::CompileFailed && final(self).stored() == Some(bytes)
                } else {
                    status == Da2Status::EncodeFailed && final(self).stored() is None
                },
                Err(_) => status == Da2Status::EncodeFailed && final(self).stored() is None,
            },
    {
        let diagnostics = report(error);
        self.store_diagnostics(&diagnostics)
    }

    /// The blob stored by the last compile, or `NoResult`.
    pub fn result(&self) -> (result: Result<&Vec<u8>, Da2Status>)
        ensures
            match self.stored() {
                Some(bytes) => result matches Ok(found) && found@ == bytes,
                None => result == Err::<&Vec<u8>, Da2Status>(Da2Status::NoResult),
            },
    {
        match &self.result {
            Some(bytes) => Ok(bytes),
            None => Err(Da2Status::NoResult),
        }
    }
}

} // verus!
