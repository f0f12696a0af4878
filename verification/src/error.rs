//! The library's error type.
use vstd::prelude::*;

verus! {

/// `std::io::Error` travels inside [`GdbError::Io`]; nothing looks inside it.
#[verifier::external_type_specification]
#[verifier::external_body]
pub struct ExIoError(std::io::Error);

/// `std::string::FromUtf8Error` travels inside [`GdbError::Utf`]; nothing looks inside it.
#[verifier::external_type_specification]
#[verifier::external_body]
pub struct ExFromUtf8Error(std::string::FromUtf8Error);

/// Errors of the geodatabase library.
#[derive(Debug)]
pub enum GdbError {
    /// A file could not be read or written.
    Io(std::io::Error),
    /// Text could not be decoded.
    Utf(std::string::FromUtf8Error),
    /// The directory is not a file geodatabase (the system catalog is missing).
    NotAGeodatabase(String),
    /// The named feature class, table or feature dataset does not exist.
    NotFound(String),
    /// A field name or index is not valid.
    InvalidField(String),
    /// The geometry does not fit the operation (for example a table without shape).
    GeometryError(String),
    /// The binary layout could not be decoded (offsets out of range, unknown kinds, ...).
    Format(String),
    /// An edit session was used out of order.
    Edit(String),
    /// Any other error.
    Other(String),
}

/// The kind of an error, without its payload.
#[derive(Debug, Clone, Copy, PartialEq, Eq)]
pub enum ErrorKind {
    Io,
    Utf,
    NotAGeodatabase,
    NotFound,
    InvalidField,
    Geometry,
    Format,
    Edit,
    Other,
}

impl GdbError {
    /// The kind of this error.
    pub open spec fn kind(&self) -> ErrorKind {
        match self {
            GdbError::Io(_) => ErrorKind::Io,
            GdbError::Utf(_) => ErrorKind::Utf,
            GdbError::NotAGeodatabase(_) => ErrorKind::NotAGeodatabase,
            GdbError::NotFound(_) => ErrorKind::NotFound,
            GdbError::InvalidField(_) => ErrorKind::InvalidField,
            GdbError::GeometryError(_) => ErrorKind::Geometry,
            GdbError::Format(_) => ErrorKind::Format,
            GdbError::Edit(_) => ErrorKind::Edit,
            GdbError::Other(_) => ErrorKind::Other,
        }
    }
}

impl From<std::io::Error> for GdbError {
    fn from(e: std::io::Error) -> (r: Self) {
        GdbError::Io(e)
    }
}

impl vstd::std_specs::convert::FromSpecImpl<std::io::Error> for GdbError {
    open spec fn obeys_from_spec() -> bool {
        true
    }

    open spec fn from_spec(e: std::io::Error) -> Self {
        GdbError::Io(e)
    }
}

impl From<std::string::FromUtf8Error> for GdbError {
    fn from(e: std::string::FromUtf8Error) -> (r: Self) {
        GdbError::Utf(e)
    }
}

impl vstd::std_specs::convert::FromSpecImpl<std::string::FromUtf8Error> for GdbError {
    open spec fn obeys_from_spec() -> bool {
        true
    }

    open spec fn from_spec(e: std::string::FromUtf8Error) -> Self {
        GdbError::Utf(e)
    }
}

/// The message that an error carries (empty for I/O and text-decoding errors, whose
/// payload is not text).
pub open spec fn error_text(e: GdbError) -> Seq<char> {
    match e {
        GdbError::NotAGeodatabase(s) => s@,
        GdbError::NotFound(s) => s@,
        GdbError::InvalidField(s) => s@,
        GdbError::GeometryError(s) => s@,
        GdbError::Format(s) => s@,
        GdbError::Edit(s) => s@,
        GdbError::Other(s) => s@,
        _ => Seq::empty(),
    }
}

/// A `Format` error with the given message.
pub fn format_error(msg: &str) -> (e: GdbError)
    ensures
        e is Format,
        error_text(e) == msg@,
{
    GdbError::Format(msg.to_string())
}

/// A `GeometryError` with the given message.
pub fn geometry_error(msg: &str) -> (e: GdbError)
    ensures
        e is GeometryError,
        error_text(e) == msg@,
{
    GdbError::GeometryError(msg.to_string())
}

} // verus!
