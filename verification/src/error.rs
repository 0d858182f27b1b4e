//! The error type shared by every operation of this crate.
//!
//! Errors carry a kind (a coarse taxonomy) and, for some constructors, a
//! message. Interruption (`ErrorKind::Interrupted`) is special: retry loops
//! absorb it instead of surfacing it to the caller.

use vstd::prelude::*;

verus! {

/// A coarse classification of I/O failures.
#[derive(Clone, Copy, Debug, PartialEq, Eq, Structural)]
pub enum ErrorKind {
    NotFound,
    PermissionDenied,
    ConnectionRefused,
    ConnectionReset,
    HostUnreachable,
    NetworkUnreachable,
    ConnectionAborted,
    NotConnected,
    AddrInUse,
    AddrNotAvailable,
    NetworkDown,
    BrokenPipe,
    AlreadyExists,
    WouldBlock,
    NotADirectory,
    IsADirectory,
    DirectoryNotEmpty,
    ReadOnlyFilesystem,
    FilesystemLoop,
    StaleNetworkFileHandle,
    InvalidInput,
    InvalidData,
    TimedOut,
    WriteZero,
    StorageFull,
    NotSeekable,
    FilesystemQuotaExceeded,
    FileTooLarge,
    ResourceBusy,
    ExecutableFileBusy,
    Deadlock,
    CrossesDevices,
    TooManyLinks,
    InvalidFilename,
    ArgumentListTooLong,
    Interrupted,
    Unsupported,
    UnexpectedEof,
    OutOfMemory,
    Other,
    Uncategorized,
}

impl ErrorKind {
    /// A short human-readable description of the kind.
    pub fn as_str(&self) -> &'static str {
        match *self {
            ErrorKind::AddrInUse => "address in use",
            ErrorKind::AddrNotAvailable => "address not available",
            ErrorKind::AlreadyExists => "entity already exists",
            ErrorKind::ArgumentListTooLong => "argument list too long",
            ErrorKind::BrokenPipe => "broken pipe",
            ErrorKind::ConnectionAborted => "connection aborted",
            ErrorKind::ConnectionRefused => "connection refused",
            ErrorKind::ConnectionReset => "connection reset",
            ErrorKind::CrossesDevices => "cross-device link or rename",
            ErrorKind::Deadlock => "deadlock",
            ErrorKind::DirectoryNotEmpty => "directory not empty",
            ErrorKind::ExecutableFileBusy => "executable file busy",
            ErrorKind::FileTooLarge => "file too large",
            ErrorKind::FilesystemLoop => "filesystem loop or indirection limit (e.g. symlink loop)",
            ErrorKind::FilesystemQuotaExceeded => "filesystem quota exceeded",
            ErrorKind::HostUnreachable => "host unreachable",
            ErrorKind::Interrupted => "operation interrupted",
            ErrorKind::InvalidData => "invalid data",
            ErrorKind::InvalidFilename => "invalid filename",
            ErrorKind::InvalidInput => "invalid input parameter",
            ErrorKind::IsADirectory => "is a directory",
            ErrorKind::NetworkDown => "network down",
            ErrorKind::NetworkUnreachable => "network unreachable",
            ErrorKind::NotADirectory => "not a directory",
            ErrorKind::NotConnected => "not connected",
            ErrorKind::NotFound => "entity not found",
            ErrorKind::NotSeekable => "seek on unseekable file",
            ErrorKind::Other => "other error",
            ErrorKind::OutOfMemory => "out of memory",
            ErrorKind::PermissionDenied => "permission denied",
            ErrorKind::ReadOnlyFilesystem => "read-only filesystem or storage medium",
            ErrorKind::ResourceBusy => "resource busy",
            ErrorKind::StaleNetworkFileHandle => "stale network file handle",
            ErrorKind::StorageFull => "no storage space",
            ErrorKind::TimedOut => "timed out",
            ErrorKind::TooManyLinks => "too many links",
            ErrorKind::Uncategorized => "uncategorized error",
            ErrorKind::UnexpectedEof => "unexpected end of file",
            ErrorKind::Unsupported => "unsupported",
            ErrorKind::WouldBlock => "operation would block",
            ErrorKind::WriteZero => "write zero",
        }
    }
}

/// An error built from a kind and a fixed message.
#[derive(Clone, Copy, Debug)]
pub struct SimpleMessage {
    pub kind: ErrorKind,
    pub message: &'static str,
}

impl SimpleMessage {
    pub fn new(kind: ErrorKind, message: &'static str) -> (r: SimpleMessage)
        ensures
            r.kind == kind,
            r.message == message,
    {
        SimpleMessage { kind, message }
    }
}

/// An error built from a kind and an owned message.
#[derive(Debug)]
pub struct Custom {
    pub kind: ErrorKind,
    pub message: String,
}

/// The error type for the operations of this crate.
#[derive(Debug)]
pub enum Error {
    /// A raw error code reported by the operating environment.
    Os(i64),
    /// A kind with no further payload.
    Simple(ErrorKind),
    /// A kind with a fixed message.
    SimpleMessage(SimpleMessage),
    /// A kind with an owned message.
    Custom(Box<Custom>),
}

impl Error {
    /// The kind of this error, whatever form it is held in.
    pub open spec fn kind_spec(&self) -> ErrorKind {
        match self {
            Error::Os(_) => ErrorKind::Other,
            Error::Simple(kind) => *kind,
            Error::SimpleMessage(m) => m.kind,
            Error::Custom(c) => c.kind,
        }
    }

    /// Whether retry loops absorb this error instead of surfacing it.
    pub open spec fn is_interrupted_spec(&self) -> bool {
        self.kind_spec() == ErrorKind::Interrupted
    }

    pub fn new_simple(kind: ErrorKind) -> (r: Error)
        ensures
            r == Error::Simple(kind),
    {
        Error::Simple(kind)
    }

    pub fn new_custom(custom: Box<Custom>) -> (r: Error)
        ensures
            r == Error::Custom(custom),
    {
        Error::Custom(custom)
    }

    pub fn new_simple_message(msg: SimpleMessage) -> (r: Error)
        ensures
            r == Error::SimpleMessage(msg),
    {
        Error::SimpleMessage(msg)
    }

    pub fn new_os(code: i64) -> (r: Error)
        ensures
            r == Error::Os(code),
    {
        Error::Os(code)
    }

    pub fn new(kind: ErrorKind, message: String) -> (r: Error)
        ensures
            r matches Error::Custom(c) && c.kind == kind && c.message == message,
    {
        Error::Custom(Box::new(Custom { kind, message }))
    }

    pub fn other(message: String) -> (r: Error)
        ensures
            r matches Error::Custom(c) && c.kind == ErrorKind::Other && c.message == message,
    {
        Error::Custom(Box::new(Custom { kind: ErrorKind::Other, message }))
    }

    pub fn from_raw_os_error(code: i64) -> (r: Error)
        ensures
            r == Error::Os(code),
    {
        Error::Os(code)
    }

    pub fn raw_os_error(&self) -> (r: Option<i64>)
        ensures
            match r {
                Some(code) => *self == Error::Os(code),
                None => !(*self is Os),
            },
    {
        match self {
            Error::Os(i) => Some(*i),
            Error::Custom(..) => None,
            Error::Simple(..) => None,
            Error::SimpleMessage(..) => None,
        }
    }

    /// A reference to the owned message, if the error holds one.
    pub fn get_ref(&self) -> (r: Option<&String>)
        ensures
            r is Some <==> *self is Custom,
            match r {
                Some(m) => *self matches Error::Custom(c) && c.message == *m,
                None => true,
            },
    {
        match self {
            Error::Os(..) => None,
            Error::Simple(..) => None,
            Error::SimpleMessage(..) => None,
            Error::Custom(c) => Some(&c.message),
        }
    }

    /// A mutable reference to the owned message, if the error holds one.
    pub fn get_mut(&mut self) -> (r: Option<&mut String>)
        ensures
            *old(self) is Custom <==> r is Some,
            !(*old(self) is Custom) ==> *final(self) == *old(self),
    {
        match self {
            Error::Os(..) => None,
            Error::Simple(..) => None,
            Error::SimpleMessage(..) => None,
            Error::Custom(c) => Some(&mut c.message),
        }
    }

    /// The owned message, if the error holds one.
    pub fn into_inner(self) -> (r: Option<String>)
        ensures
            r is Some <==> self is Custom,
            match r {
                Some(m) => self matches Error::Custom(c) && c.message == m,
                None => true,
            },
    {
        match self {
            Error::Os(..) => None,
            Error::Simple(..) => None,
            Error::SimpleMessage(..) => None,
            Error::Custom(c) => Some(c.message),
        }
    }

    /// The owned payload, if the error holds one; the error itself otherwise.
    pub fn downcast(self) -> (r: Result<Custom, Error>)
        ensures
            match r {
                Ok(c) => self == Error::Custom(Box::new(c)),
                Err(e) => e == self && !(self is Custom),
            },
    {
        match self {
            Error::Custom(c) => Ok(*c),
            err => Err(err),
        }
    }

    pub fn kind(&self) -> (r: ErrorKind)
        ensures
            r == self.kind_spec(),
    {
        match self {
            Error::Os(..) => ErrorKind::Other,
            Error::Custom(c) => c.kind,
            Error::Simple(kind) => *kind,
            Error::SimpleMessage(m) => m.kind,
        }
    }

    pub fn is_interrupted(&self) -> (r: bool)
        ensures
            r == self.is_interrupted_spec(),
    {
        match self {
            Error::Os(..) => false,
            Error::Custom(c) => matches!(c.kind, ErrorKind::Interrupted),
            Error::Simple(kind) => matches!(kind, ErrorKind::Interrupted),
            Error::SimpleMessage(m) => matches!(m.kind, ErrorKind::Interrupted),
        }
    }

    /// The error returned when a reader reaches end of input before an exact
    /// read is satisfied.
    pub fn read_exact_eof() -> (r: Error)
        ensures
            r.kind_spec() == ErrorKind::UnexpectedEof,
    {
        Error::SimpleMessage(
            SimpleMessage {
                kind: ErrorKind::UnexpectedEof,
                message: "failed to fill whole buffer",
            },
        )
    }

    /// The error returned when a sink accepts zero bytes while bytes are owed.
    pub fn write_all_eof() -> (r: Error)
        ensures
            r.kind_spec() == ErrorKind::WriteZero,
    {
        Error::SimpleMessage(
            SimpleMessage { kind: ErrorKind::WriteZero, message: "failed to write whole buffer" },
        )
    }

    /// The error returned when text was required and the bytes are not valid
    /// UTF-8.
    pub fn invalid_utf8() -> (r: Error)
        ensures
            r.kind_spec() == ErrorKind::InvalidData,
    {
        Error::SimpleMessage(
            SimpleMessage {
                kind: ErrorKind::InvalidData,
                message: "stream did not contain valid UTF-8",
            },
        )
    }

    /// The error returned when a buffered flush makes no progress.
    pub fn write_zero() -> (r: Error)
        ensures
            r.kind_spec() == ErrorKind::WriteZero,
    {
        Error::SimpleMessage(
            SimpleMessage {
                kind: ErrorKind::WriteZero,
                message: "failed to write the buffered data",
            },
        )
    }

    /// The error returned when seek arithmetic leaves the representable range.
    pub fn invalid_seek() -> (r: Error)
        ensures
            r.kind_spec() == ErrorKind::InvalidInput,
    {
        Error::SimpleMessage(
            SimpleMessage {
                kind: ErrorKind::InvalidInput,
                message: "invalid seek to a negative or overflowing position",
            },
        )
    }
}

impl From<std::collections::TryReserveError> for Error {
    /// An allocation failure while growing a buffer.
    fn from(_e: std::collections::TryReserveError) -> (r: Error) {
        Error::Simple(ErrorKind::OutOfMemory)
    }
}

impl vstd::std_specs::convert::FromSpecImpl<std::collections::TryReserveError> for Error {
    open spec fn obeys_from_spec() -> bool {
        true
    }

    open spec fn from_spec(e: std::collections::TryReserveError) -> Error {
        Error::Simple(ErrorKind::OutOfMemory)
    }
}

} // verus!
