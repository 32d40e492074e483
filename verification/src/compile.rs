//! How a failed compile is reported: the error of either stage of the pipeline, and the
//! diagnostics the client receives for it.
use vstd::prelude::*;
use vstd::string::*;

use crate::diagnostics::{Diagnostic, DiagnosticStage, Diagnostics};
use crate::transform_error::{kind_message, TransformErrors};

verus! {

/// Failure of evaluating a declaration script. The interpreter's errors are held as the text it
/// reported, traceback included.
#[derive(Debug, Clone, PartialEq)]
pub enum ScriptError {
    /// The interpreter could not be prepared. This is a fault of the host, not of the script.
    Runtime(String),
    /// The script raised an error.
    Script(String),
    /// The script finished without returning an avatar.
    NotAnAvatar { found: String },
}

/// The sentence that explains a script error.
pub open spec fn script_message(error: ScriptError) -> Seq<char> {
    match error {
        ScriptError::Runtime(reported) => "failed to prepare the Lua runtime: "@ + reported@,
        ScriptError::Script(reported) => reported@,
        ScriptError::NotAnAvatar { found } => "the script must end with `return da.avatar(...)`, but it returned "@
            + found@,
    }
}

impl ScriptError {
    pub fn message(&self) -> (text: String)
        ensures
            text@ == script_message(*self),
    {
        match self {
            ScriptError::Runtime(reported) => {
                let mut text = String::from_str("failed to prepare the Lua runtime: ");
                text.append(reported.as_str());
                text
            },
            ScriptError::Script(reported) => reported.clone(),
            ScriptError::NotAnAvatar { found } => {
                let mut text = String::from_str(
                    "the script must end with `return da.avatar(...)`, but it returned ",
                );
                text.append(found.as_str());
                text
            },
        }
    }
}

/// Failure of turning a script into an avatar, at either stage of the pipeline.
#[derive(Debug, Clone, PartialEq)]
pub enum CompileError {
    Script(ScriptError),
    Transform(TransformErrors),
}

/// What the client is told of a failed compile: a script error is one item with no location; each
/// error of the transform is an item of its own, at the place it was written.
pub open spec fn diagnostics_of(error: CompileError) -> (DiagnosticStage, Seq<(Option<(Seq<char>, u32)>, Seq<char>)>) {
    match error {
        CompileError::Script(script) => (DiagnosticStage::Script, seq![(None, script_message(script))]),
        CompileError::Transform(errors) => (
            DiagnosticStage::Transform,
            Seq::new(errors.0@.len(), |i: int| (errors.0@[i].at.deep_view(), kind_message(errors.0@[i].kind))),
        ),
    }
}

/// The diagnostics that report a failed compile.
pub fn report(error: &CompileError) -> (diagnostics: Diagnostics)
    ensures
        diagnostics.deep_view() == diagnostics_of(*error),
{
    match error {
        CompileError::Script(script) => {
            let items = vec![Diagnostic { at: None, message: script.message() }];
            let diagnostics = Diagnostics { stage: DiagnosticStage::Script, items };
            assert(diagnostics.deep_view() =~= diagnostics_of(*error));
            diagnostics
        },
        CompileError::Transform(errors) => {
            let mut items: Vec<Diagnostic> = Vec::new();
            let mut i: usize = 0;
            while i < errors.0.len()
                invariant
                    i <= errors.0@.len(),
                    items@.len() == i,
                    forall|k: int|
                        0 <= k < i ==> (#[trigger] items@[k]).deep_view() == (
                            errors.0@[k].at.deep_view(),
                            kind_message(errors.0@[k].kind),
                        ),
                decreases errors.0@.len() - i,
            {
                let error = &errors.0[i];
                let at = crate::resolution::duplicate_location(&error.at);
                items.push(Diagnostic { at, message: error.kind.message() });
                i = i + 1;
            }
            let diagnostics = Diagnostics { stage: DiagnosticStage::Transform, items };
            assert(diagnostics.deep_view().1 =~= diagnostics_of(*error).1);
            diagnostics
        },
    }
}

} // verus!
