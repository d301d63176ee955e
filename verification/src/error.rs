//! What a pool operation can fail with.
use vstd::prelude::*;

verus! {

/// Error type for pool operations.
#[derive(Debug, Clone, Copy, PartialEq, Eq, Structural)]
pub enum Error {
    /// Pool is at watermark: allocation denied.
    PoolFull,
    /// The requested ID is out of range.
    OutOfRange,
    /// The requested ID is not allocated.
    NotAllocated,
}

impl Error {
    /// The text that describes the error.
    pub open spec fn text(self) -> Seq<char> {
        match self {
            Error::PoolFull => "pool is at watermark"@,
            Error::OutOfRange => "id out of range"@,
            Error::NotAllocated => "id not allocated"@,
        }
    }

    /// The text that describes the error, as an owned string.
    pub fn to_string(&self) -> (s: String)
        ensures
            s@ == self.text(),
            *self == Error::PoolFull ==> s@ == "pool is at watermark"@,
            *self == Error::OutOfRange ==> s@ == "id out of range"@,
            *self == Error::NotAllocated ==> s@ == "id not allocated"@,
    {
        match self {
            Error::PoolFull => "pool is at watermark".to_owned(),
            Error::OutOfRange => "id out of range".to_owned(),
            Error::NotAllocated => "id not allocated".to_owned(),
        }
    }
}

} // verus!
