//! The failure cases of the pipeline.

use vstd::prelude::*;
use vstd::string::StringExecFns;

verus! {

/// Everything that can end a pipeline run early.
///
/// - `SelectorNotFound`: no element matched the configured selector, or the
///   first match lacked the requested attribute; recoverable by the caller.
/// - `Fetch`: a transport failure on the page or image fetch, with its cause.
/// - `Decode`: the fetched bytes are not a recognized raster image.
/// - `InsufficientPalette`: quantization produced fewer colors than a
///   downstream consumer needs (fewer than two when a push was requested).
/// - `Push`: the lighting endpoint failed after the palette was computed and
///   displayed; only the push step counts as failed.
#[derive(Debug)]
pub enum Error {
    SelectorNotFound,
    Fetch(String),
    Decode,
    InsufficientPalette,
    Push(String),
}

/// The fixed text that describes each error variant; a transport cause is
/// appended to it.
pub open spec fn message_prefix(e: Error) -> Seq<char> {
    match e {
        Error::SelectorNotFound => "no selector match"@,
        Error::Fetch(_) => "fetch failed: "@,
        Error::Decode => "image bytes could not be decoded"@,
        Error::InsufficientPalette => "palette too short for the requested push"@,
        Error::Push(_) => "push failed: "@,
    }
}

/// The full text of an error: its fixed description, then the underlying
/// cause where one was recorded.
pub open spec fn message_of(e: Error) -> Seq<char> {
    match e {
        Error::Fetch(cause) => message_prefix(e) + cause@,
        Error::Push(cause) => message_prefix(e) + cause@,
        _ => message_prefix(e),
    }
}

impl Error {
    /// One human-readable line for the error report on standard output.
    pub fn message(&self) -> (s: String)
        ensures
            s@ == message_of(*self),
    {
        match self {
            Error::SelectorNotFound => String::from_str("no selector match"),
            Error::Fetch(cause) => {
                let mut s = String::from_str("fetch failed: ");
                s.append(cause.as_str());
                proof {
                    assert(s@ =~= message_of(*self));
                }
                s
            },
            Error::Decode => String::from_str("image bytes could not be decoded"),
            Error::InsufficientPalette => String::from_str(
                "palette too short for the requested push",
            ),
            Error::Push(cause) => {
                let mut s = String::from_str("push failed: ");
                s.append(cause.as_str());
                proof {
                    assert(s@ =~= message_of(*self));
                }
                s
            },
        }
    }
}

} // verus!
