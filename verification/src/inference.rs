//! Choosing how a model file is loaded from its file extension.

use vstd::prelude::*;
use vstd::string::StringExecFns;
use crate::text::str_eq;

verus! {

/// Errors that can occur when choosing how to load a model.
#[derive(Debug)]
pub enum InferenceError {
    /// Model framework error.
    Burn(String),
    /// Unsupported model format.
    UnsupportedFormat(String),
}

/// Model file formats the inference engine loads.
#[derive(Debug, Clone, Copy, PartialEq, Eq, Structural)]
pub enum ModelFormat {
    /// An ONNX model (needs the input shape).
    Onnx,
    /// A Burn binary record.
    Bin,
}

/// The extension of a path, as std's `Path::extension` finds it, when it is
/// valid text.
pub uninterp spec fn path_extension(p: Seq<char>) -> Option<Seq<char>>;

/// The extension of a path.
///
/// Calls std's `Path::extension`; the result is named `path_extension`, which
/// depends on the path alone.
#[verifier::external_body]
fn extension_of(path: &str) -> (e: Option<String>)
    ensures
        match e {
            Some(s) => path_extension(path@) == Some(s@),
            None => path_extension(path@) is None,
        },
{
    std::path::Path::new(path).extension().and_then(|s| s.to_str()).map(|s| s.to_string())
}

/// The format a model file is loaded as, or why it cannot be: a missing
/// extension, or one other than `onnx` and `bin`.
pub open spec fn format_for_extension(ext: Option<Seq<char>>) -> Result<ModelFormat, Seq<char>> {
    match ext {
        None => Err("missing or invalid extension"@),
        Some(e) => if e == "onnx"@ {
            Ok(ModelFormat::Onnx)
        } else if e == "bin"@ {
            Ok(ModelFormat::Bin)
        } else {
            Err(e + " format not supported"@)
        },
    }
}

/// Chooses the loader from the model file's extension.
pub fn model_format(path: &str) -> (res: Result<ModelFormat, InferenceError>)
    ensures
        match format_for_extension(path_extension(path@)) {
            Ok(f) => res == Ok::<ModelFormat, InferenceError>(f),
            Err(msg) => res matches Err(InferenceError::UnsupportedFormat(m)) && m@ == msg,
        },
{
    match extension_of(path) {
        None => Err(InferenceError::UnsupportedFormat(String::from_str("missing or invalid extension"))),
        Some(ext) => {
            if str_eq(ext.as_str(), "onnx") {
                Ok(ModelFormat::Onnx)
            } else if str_eq(ext.as_str(), "bin") {
                Ok(ModelFormat::Bin)
            } else {
                Err(InferenceError::UnsupportedFormat(ext.concat(" format not supported")))
            }
        },
    }
}

} // verus!
