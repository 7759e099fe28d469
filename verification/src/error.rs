use vstd::prelude::*;

verus! {

/// Why an operation on the ledger was refused. A refused operation leaves the
/// ledger as it was.
#[derive(Copy, Clone, Eq, PartialEq, Debug, Structural)]
pub enum Error {
    /// The ledger was configured before.
    AlreadyInitialized,
    /// The ledger has not been configured yet.
    NotInitialized,
    /// A positive amount was needed (for an approval: a non-negative one).
    ZeroAmount,
    /// The holder owns fewer shares than the amount converts to.
    InsufficientShares,
    /// The spender's allowance is smaller than the amount.
    InsufficientAllowance,
    /// Shares exist while the reserve is empty.
    DivisionByZero,
    /// An intermediate or final quantity left the range of `i128`, or a
    /// stored quantity would have dropped below zero.
    Overflow,
}

impl Error {
    /// The code of this error, as `code` computes it.
    pub open spec fn code_spec(self) -> u32 {
        match self {
            Error::AlreadyInitialized => 1,
            Error::NotInitialized => 2,
            Error::ZeroAmount => 3,
            Error::InsufficientShares => 4,
            Error::InsufficientAllowance => 5,
            Error::DivisionByZero => 6,
            Error::Overflow => 7,
        }
    }

    /// The stable numeric code under which the error is reported to a host.
    pub fn code(&self) -> (c: u32)
        ensures
            c == self.code_spec(),
            1 <= c <= 7,
    {
        match self {
            Error::AlreadyInitialized => 1,
            Error::NotInitialized => 2,
            Error::ZeroAmount => 3,
            Error::InsufficientShares => 4,
            Error::InsufficientAllowance => 5,
            Error::DivisionByZero => 6,
            Error::Overflow => 7,
        }
    }

    /// The error that a code stands for, if it stands for one.
    pub fn from_code(code: u32) -> (r: Option<Error>)
        ensures
            match r {
                Some(e) => e.code_spec() == code,
                None => !(1 <= code <= 7),
            },
    {
        match code {
            1 => Some(Error::AlreadyInitialized),
            2 => Some(Error::NotInitialized),
            3 => Some(Error::ZeroAmount),
            4 => Some(Error::InsufficientShares),
            5 => Some(Error::InsufficientAllowance),
            6 => Some(Error::DivisionByZero),
            7 => Some(Error::Overflow),
            _ => None,
        }
    }
}

} // verus!
