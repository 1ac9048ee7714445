//! The closed outcome taxonomy of every public operation. The boundary is
//! cross-process, so failures travel as stable numeric codes, never as
//! panics or error values with payloads.

use vstd::prelude::*;

verus! {

/// Outcome of an operation, one variant per stable numeric code.
#[derive(Clone, Copy, PartialEq, Eq, Structural, Debug)]
pub enum Error {
    /// Successful operation; code 0.
    Success,
    /// A reserved key (key 0) was used; code 1.
    RestrictedID,
    /// No entry or published address exists for the key; code 2.
    InvalidID,
    /// A handle to the target process could not be opened; code 3.
    InvalidHandle,
    /// A remote memory transfer moved no bytes or had no buffer; code 4.
    ReadProcessMemoryFailed,
    /// The local insert succeeded but the address could not be published;
    /// code 5.
    AddressNotSaved,
}

impl Error {
    /// The stable numeric code of each outcome.
    pub open spec fn spec_code(self) -> u32 {
        match self {
            Error::Success => 0,
            Error::RestrictedID => 1,
            Error::InvalidID => 2,
            Error::InvalidHandle => 3,
            Error::ReadProcessMemoryFailed => 4,
            Error::AddressNotSaved => 5,
        }
    }

    /// The outcome a numeric code names; every code above 5 reads as success.
    pub open spec fn spec_from_code(code: u32) -> Error {
        if code == 1 {
            Error::RestrictedID
        } else if code == 2 {
            Error::InvalidID
        } else if code == 3 {
            Error::InvalidHandle
        } else if code == 4 {
            Error::ReadProcessMemoryFailed
        } else if code == 5 {
            Error::AddressNotSaved
        } else {
            Error::Success
        }
    }

    /// Converts an outcome into its numeric code.
    pub fn code(self) -> (c: u32)
        ensures
            c == self.spec_code(),
            c <= 5,
    {
        match self {
            Error::Success => 0,
            Error::RestrictedID => 1,
            Error::InvalidID => 2,
            Error::InvalidHandle => 3,
            Error::ReadProcessMemoryFailed => 4,
            Error::AddressNotSaved => 5,
        }
    }

    /// Converts a numeric code back into an outcome.
    pub fn from_code(code: u32) -> (e: Error)
        ensures
            e == Error::spec_from_code(code),
    {
        if code == 1 {
            Error::RestrictedID
        } else if code == 2 {
            Error::InvalidID
        } else if code == 3 {
            Error::InvalidHandle
        } else if code == 4 {
            Error::ReadProcessMemoryFailed
        } else if code == 5 {
            Error::AddressNotSaved
        } else {
            Error::Success
        }
    }
}

/// The code of an outcome names that outcome back, and on the codes the
/// taxonomy uses (0 through 5) the two conversions are mutually inverse.
pub proof fn lemma_code_round_trip(e: Error, code: u32)
    requires
        code <= 5,
    ensures
        Error::spec_from_code(e.spec_code()) == e,
        Error::spec_from_code(code).spec_code() == code,
{
}

} // verus!
