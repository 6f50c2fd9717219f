//! Error kinds and the values that user space receives for them.

use vstd::prelude::*;

verus! {

/// Kernel error kinds. User space receives the negated code of a kind.
#[derive(Debug, Clone, Copy, PartialEq, Eq, Structural)]
pub enum Error {
    Unspecified,
    BadEnv,
    Inval,
    NoMem,
    NoSys,
    NoFreeEnv,
    IpcNotRecv,
    NoDisk,
    MaxOpen,
    NotFound,
    BadPath,
    FileExists,
    NotExec,
    NotMapped,
    NoSpc,
}

impl Error {
    /// The small positive integer that identifies this kind.
    pub open spec fn spec_code(self) -> int {
        match self {
            Error::Unspecified => 1,
            Error::BadEnv => 2,
            Error::Inval => 3,
            Error::NoMem => 4,
            Error::NoSys => 5,
            Error::NoFreeEnv => 6,
            Error::IpcNotRecv => 7,
            Error::NoDisk => 8,
            Error::MaxOpen => 9,
            Error::NotFound => 10,
            Error::BadPath => 11,
            Error::FileExists => 12,
            Error::NotExec => 13,
            Error::NotMapped => 14,
            Error::NoSpc => 15,
        }
    }

    /// The value handed back to user space for this kind: its code, negated.
    pub open spec fn spec_errno(self) -> int {
        -self.spec_code()
    }

    /// The positive code of this kind.
    pub fn code(self) -> (r: i32)
        ensures
            r == self.spec_code(),
            1 <= r <= 15,
    {
        match self {
            Error::Unspecified => 1,
            Error::BadEnv => 2,
            Error::Inval => 3,
            Error::NoMem => 4,
            Error::NoSys => 5,
            Error::NoFreeEnv => 6,
            Error::IpcNotRecv => 7,
            Error::NoDisk => 8,
            Error::MaxOpen => 9,
            Error::NotFound => 10,
            Error::BadPath => 11,
            Error::FileExists => 12,
            Error::NotExec => 13,
            Error::NotMapped => 14,
            Error::NoSpc => 15,
        }
    }

    /// The negated code, as a system call returns it.
    pub fn errno(self) -> (r: i32)
        ensures
            r == self.spec_errno(),
            -15 <= r <= -1,
    {
        -self.code()
    }
}

impl From<Error> for i32 {
    fn from(e: Error) -> (r: i32) {
        e.errno()
    }
}

impl vstd::std_specs::convert::FromSpecImpl<Error> for i32 {
    open spec fn obeys_from_spec() -> bool {
        true
    }

    open spec fn from_spec(e: Error) -> i32 {
        (-e.spec_code()) as i32
    }
}

/// Distinct kinds have distinct codes.
pub proof fn lemma_codes_distinct(a: Error, b: Error)
    requires
        a.spec_code() == b.spec_code(),
    ensures
        a == b,
{
}

} // verus!
