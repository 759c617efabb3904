//! Error codes exchanged with the bus subsystem.
use vstd::prelude::*;

verus! {

/// Invalid argument.
pub const EINVAL: i32 = 22;

/// Device or resource busy (returned for a driver name that is already taken).
pub const EBUSY: i32 = 16;

/// Out of memory.
pub const ENOMEM: i32 = 12;

/// No such device.
pub const ENODEV: i32 = 19;

/// A negative errno value.
#[derive(Clone, Copy, Debug, PartialEq, Eq, Structural)]
pub struct Error {
    pub errno: i32,
}

impl Error {
    /// The error for the positive errno code `code`.
    pub fn from_code(code: i32) -> (r: Error)
        requires
            0 < code,
        ensures
            r.errno == -code,
    {
        Error { errno: -code }
    }

    /// The negative errno value carried by this error.
    pub fn to_errno(&self) -> (r: i32)
        ensures
            r == self.errno,
    {
        self.errno
    }

    /// Converts a status returned by the bus: zero is success, any other value an error.
    pub fn check_status(status: i32) -> (r: Result<(), Error>)
        ensures
            status == 0 <==> r is Ok,
            r matches Err(e) ==> e.errno == status,
    {
        if status == 0 {
            Ok(())
        } else {
            Err(Error { errno: status })
        }
    }
}

/// The status reported to the bus for a callback's result: zero on success,
/// the error's errno otherwise.
pub fn from_result(r: Result<(), Error>) -> (status: i32)
    ensures
        r is Ok ==> status == 0,
        r matches Err(e) ==> status == e.errno,
{
    match r {
        Ok(()) => 0,
        Err(e) => e.errno,
    }
}

} // verus!
