//! The editor's main error type.

use vstd::prelude::*;

verus! {

/// Main error type for ProEdit operations.
#[derive(Debug)]
pub enum ProEditError {
    Io(std::io::Error),
    Media(String),
    Decoder(String),
    Encoder(String),
    Gpu(String),
    Shader(String),
    InvalidParameter(String),
    NotFound(String),
    OutOfMemory(String),
    UnsupportedFormat(String),
    Timeline(String),
    Effect(String),
    Audio(String),
    Serialization(String),
    Internal(String),
}

/// The text that `std::io::Error` displays for an I/O error.
/// Nothing is stated of it: it comes from the operating system.
#[verifier::external_body]
pub(crate) fn io_error_text(e: &std::io::Error) -> String {
    format!("{}", e)
}

/// The message of an error other than an I/O error: a prefix naming the
/// kind, then the detail.
pub open spec fn error_text(e: ProEditError) -> Seq<char> {
    match e {
        ProEditError::Io(_) => "I/O error: "@,
        ProEditError::Media(s) => "Media error: "@ + s@,
        ProEditError::Decoder(s) => "Decoder error: "@ + s@,
        ProEditError::Encoder(s) => "Encoder error: "@ + s@,
        ProEditError::Gpu(s) => "GPU error: "@ + s@,
        ProEditError::Shader(s) => "Shader compilation error: "@ + s@,
        ProEditError::InvalidParameter(s) => "Invalid parameter: "@ + s@,
        ProEditError::NotFound(s) => "Resource not found: "@ + s@,
        ProEditError::OutOfMemory(s) => "Out of memory: "@ + s@,
        ProEditError::UnsupportedFormat(s) => "Unsupported format: "@ + s@,
        ProEditError::Timeline(s) => "Timeline error: "@ + s@,
        ProEditError::Effect(s) => "Effect error: "@ + s@,
        ProEditError::Audio(s) => "Audio error: "@ + s@,
        ProEditError::Serialization(s) => "Serialization error: "@ + s@,
        ProEditError::Internal(s) => "Internal error: "@ + s@,
    }
}

fn prefixed(prefix: &str, detail: &String) -> (m: String)
    ensures
        m@ == prefix@ + detail@,
{
    let mut out = String::from_str(prefix);
    out.append(detail.as_str());
    out
}

impl ProEditError {
    /// The human-readable message of this error. For an I/O error the
    /// prefix `I/O error: ` is followed by the system's description.
    pub fn message(&self) -> (m: String)
        ensures
            self is Io ==> error_text(*self).is_prefix_of(m@),
            !(self is Io) ==> m@ == error_text(*self),
    {
        match self {
            ProEditError::Io(e) => {
                let mut out = String::from_str("I/O error: ");
                let detail = io_error_text(e);
                out.append(detail.as_str());
                proof {
                    assert(out@.subrange(0, "I/O error: "@.len() as int) =~= "I/O error: "@);
                }
                out
            },
            ProEditError::Media(s) => prefixed("Media error: ", s),
            ProEditError::Decoder(s) => prefixed("Decoder error: ", s),
            ProEditError::Encoder(s) => prefixed("Encoder error: ", s),
            ProEditError::Gpu(s) => prefixed("GPU error: ", s),
            ProEditError::Shader(s) => prefixed("Shader compilation error: ", s),
            ProEditError::InvalidParameter(s) => prefixed("Invalid parameter: ", s),
            ProEditError::NotFound(s) => prefixed("Resource not found: ", s),
            ProEditError::OutOfMemory(s) => prefixed("Out of memory: ", s),
            ProEditError::UnsupportedFormat(s) => prefixed("Unsupported format: ", s),
            ProEditError::Timeline(s) => prefixed("Timeline error: ", s),
            ProEditError::Effect(s) => prefixed("Effect error: ", s),
            ProEditError::Audio(s) => prefixed("Audio error: ", s),
            ProEditError::Serialization(s) => prefixed("Serialization error: ", s),
            ProEditError::Internal(s) => prefixed("Internal error: ", s),
        }
    }
}

} // verus!
