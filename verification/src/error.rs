use vstd::prelude::*;

verus! {

/// The one error type of every operation: each failure is one of three kinds
/// and carries a human-readable message.
#[derive(Debug)]
pub enum JujuError {
    /// A tool could not be run, or ran and reported failure.
    IoError(String),
    /// Captured bytes were not valid UTF-8.
    FromUtf8Error(String),
    /// A field that must be a non-negative integer was not one.
    ParseIntError(String),
}

impl JujuError {
    /// The message that the error carries.
    pub open spec fn message(&self) -> Seq<char> {
        match self {
            JujuError::IoError(m) => m@,
            JujuError::FromUtf8Error(m) => m@,
            JujuError::ParseIntError(m) => m@,
        }
    }

    /// Same kind and same message.
    pub open spec fn same_as(&self, other: &JujuError) -> bool {
        &&& self.message() == other.message()
        &&& (self is IoError <==> other is IoError)
        &&& (self is FromUtf8Error <==> other is FromUtf8Error)
        &&& (self is ParseIntError <==> other is ParseIntError)
    }

    /// A process failure with the given message.
    pub fn new(err: String) -> (e: JujuError)
        ensures
            e == JujuError::IoError(err),
    {
        JujuError::IoError(err)
    }

    /// The message of the error, whatever its kind.
    pub fn to_string(&self) -> (s: String)
        ensures
            s@ == self.message(),
    {
        match self {
            JujuError::IoError(m) => m.clone(),
            JujuError::FromUtf8Error(m) => m.clone(),
            JujuError::ParseIntError(m) => m.clone(),
        }
    }
}

} // verus!
