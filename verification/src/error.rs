//! The classes of failure and the status with which each is answered.

use vstd::prelude::*;

verus! {

/// Status of a request whose archive was built and stored.
pub const STATUS_OK: u16 = 200;

/// Status of a request whose body could not be read as a list of keys.
pub const STATUS_BAD_REQUEST: u16 = 400;

/// Status of a request that names a key which the source bucket lacks.
pub const STATUS_NOT_FOUND: u16 = 404;

/// Status of a request that failed for any other reason.
pub const STATUS_INTERNAL_ERROR: u16 = 500;

/// The class of a failure. It is kept from the place where the failure is
/// seen to the answer that the job gives.
#[derive(Clone, Copy, Debug, PartialEq, Eq, Structural)]
pub enum ErrorKind {
    /// A requested source key does not exist.
    NotFound,
    /// The store rejected a call for another reason.
    ServiceError,
    /// The connection to the store failed.
    TransportError,
    /// Local I/O or the archive format failed.
    InternalError,
}

impl ErrorKind {
    /// The status with which a failure of this class is answered: a
    /// missing key is the caller's error, everything else the server's.
    pub open spec fn status_of(self) -> u16 {
        match self {
            ErrorKind::NotFound => STATUS_NOT_FOUND,
            _ => STATUS_INTERNAL_ERROR,
        }
    }

    /// The status with which a failure of this class is answered.
    pub fn status(self) -> (code: u16)
        ensures
            code == self.status_of(),
            code == 404 <==> self == ErrorKind::NotFound,
            code == 500 <==> self != ErrorKind::NotFound,
    {
        match self {
            ErrorKind::NotFound => STATUS_NOT_FOUND,
            _ => STATUS_INTERNAL_ERROR,
        }
    }

    /// Whether the failure is the caller's.
    pub fn is_client_error(self) -> (b: bool)
        ensures
            b == (self == ErrorKind::NotFound),
            b == (400 <= self.status_of() < 500),
    {
        match self {
            ErrorKind::NotFound => true,
            _ => false,
        }
    }

    /// The class under which a failure of a call that writes to the store
    /// is kept. Such a call has no source key to miss, so whatever the
    /// store refused there is a service error.
    pub open spec fn on_write_of(self) -> ErrorKind {
        match self {
            ErrorKind::NotFound => ErrorKind::ServiceError,
            other => other,
        }
    }

    /// The class under which a failure of a call that writes to the store
    /// is kept.
    pub fn on_write(self) -> (kind: ErrorKind)
        ensures
            kind == self.on_write_of(),
            kind != ErrorKind::NotFound,
    {
        match self {
            ErrorKind::NotFound => ErrorKind::ServiceError,
            other => other,
        }
    }
}

} // verus!
