//! Errors of the AI subsystem.

use vstd::prelude::*;
use crate::foundation::error::io_error_text;

verus! {

#[verifier::external_type_specification]
#[verifier::external_body]
pub struct ExIoError(std::io::Error);

/// Errors that can occur in AI operations.
#[derive(Debug)]
pub enum AiError {
    /// The requested model was not found in the cache.
    ModelNotFound { model_id: String },
    /// Model download failed; `source` describes the cause.
    DownloadFailed { url: String, source: String },
    /// Model checksum mismatch after download.
    ChecksumMismatch { expected: String, actual: String },
    /// Preprocessing error (frame conversion, format issues, and the like).
    PreprocessError(String),
    /// A call to the cloud service failed or was not possible.
    CloudApiError(String),
    /// Data could not be serialized or deserialized.
    SerializationError(String),
    /// I/O error.
    Io(std::io::Error),
    /// Model not loaded: call the loader first.
    ModelNotLoaded,
}

/// The message of an AI error; for an I/O error, the part before the
/// system's description.
pub open spec fn ai_error_text(e: AiError) -> Seq<char> {
    match e {
        AiError::ModelNotFound { model_id } => "Model not found: "@ + model_id@,
        AiError::DownloadFailed { url, source } => "Model download failed: "@ + url@ + " \u{2014} "@
            + source@,
        AiError::ChecksumMismatch { expected, actual } => "Model checksum mismatch: expected "@
            + expected@ + ", got "@ + actual@,
        AiError::PreprocessError(s) => "Preprocessing error: "@ + s@,
        AiError::CloudApiError(s) => "Cloud API error: "@ + s@,
        AiError::SerializationError(s) => "Serialization error: "@ + s@,
        AiError::Io(_) => "IO error: "@,
        AiError::ModelNotLoaded => "Model not loaded \u{2014} call load_model() first"@,
    }
}

impl AiError {
    /// The human-readable message of this error.
    pub fn message(&self) -> (m: String)
        ensures
            self is Io ==> ai_error_text(*self).is_prefix_of(m@),
            !(self is Io) ==> m@ == ai_error_text(*self),
    {
        match self {
            AiError::ModelNotFound { model_id } => {
                let mut out = String::from_str("Model not found: ");
                out.append(model_id.as_str());
                out
            },
            AiError::DownloadFailed { url, source } => {
                let mut out = String::from_str("Model download failed: ");
                out.append(url.as_str());
                out.append(" \u{2014} ");
                out.append(source.as_str());
                out
            },
            AiError::ChecksumMismatch { expected, actual } => {
                let mut out = String::from_str("Model checksum mismatch: expected ");
                out.append(expected.as_str());
                out.append(", got ");
                out.append(actual.as_str());
                out
            },
            AiError::PreprocessError(s) => {
                let mut out = String::from_str("Preprocessing error: ");
                out.append(s.as_str());
                out
            },
            AiError::CloudApiError(s) => {
                let mut out = String::from_str("Cloud API error: ");
                out.append(s.as_str());
                out
            },
            AiError::SerializationError(s) => {
                let mut out = String::from_str("Serialization error: ");
                out.append(s.as_str());
                out
            },
            AiError::Io(e) => {
                let mut out = String::from_str("IO error: ");
                let detail = io_error_text(e);
                out.append(detail.as_str());
                proof {
                    assert(out@.subrange(0, "IO error: "@.len() as int) =~= "IO error: "@);
                }
                out
            },
            AiError::ModelNotLoaded => String::from_str("Model not loaded \u{2014} call load_model() first"),
        }
    }
}

} // verus!
