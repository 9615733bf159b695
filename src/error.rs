//! The library's error type.
use vstd::prelude::*;
use crate::text::{chars_of, push_all, string_from_chars};

verus! {

/// What can fail in the library and around it.
#[derive(Debug)]
pub enum CoreError {
    Io(String),
    Windows(String),
    Napi(String),
    Other(String),
}

/// The text that describes an error.
pub open spec fn error_message(e: CoreError) -> Seq<char> {
    match e {
        CoreError::Io(m) => "io error: "@ + m@,
        CoreError::Windows(m) => "windows api error: "@ + m@,
        CoreError::Napi(m) => "n-api error: "@ + m@,
        CoreError::Other(m) => m@,
    }
}

impl CoreError {
    /// The text that describes the error.
    pub fn message(&self) -> (r: String)
        ensures
            r@ == error_message(*self),
    {
        let (prefix, m) = match self {
            CoreError::Io(m) => ("io error: ", m),
            CoreError::Windows(m) => ("windows api error: ", m),
            CoreError::Napi(m) => ("n-api error: ", m),
            CoreError::Other(m) => ("", m),
        };
        proof {
            reveal_strlit("");
        }
        let mut out = chars_of(prefix);
        let mc = chars_of(m.as_str());
        push_all(&mut out, &mc);
        string_from_chars(&out)
    }
}

} // verus!
