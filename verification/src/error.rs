use vstd::prelude::*;

verus! {

/// All error conditions the carbon registry can return.
///
/// Expected failures are reported as a typed error rather than a panic, so a
/// caller gets a stable numeric code (see [`Error::code`]) it can branch on.
#[derive(Copy, Clone, Debug, PartialEq, Eq, PartialOrd, Ord, Structural)]
pub enum Error {
    /// `initialize` was called more than once.
    AlreadyInitialized,
    /// A read expected the registry to be initialized but it was not.
    NotInitialized,
    /// Referenced project id does not exist.
    ProjectNotFound,
    /// Referenced listing id does not exist (or was fully sold / cancelled).
    ListingNotFound,
    /// Referenced retirement certificate id does not exist.
    RetirementNotFound,
    /// A numeric amount argument was zero where a positive value is required.
    InvalidAmount,
    /// The project does not have enough un-listed credits available.
    InsufficientAvailable,
    /// The caller does not hold enough credits for this operation.
    InsufficientBalance,
    /// The listing does not have enough remaining credits for this purchase.
    InsufficientListed,
    /// Arithmetic overflowed an accumulator.
    Overflow,
    /// Caller is not the configured admin.
    NotAuthorizedAdmin,
    /// Caller is not the configured verifier.
    NotAuthorizedVerifier,
    /// Caller is not the owner/seller of the referenced entity.
    NotAuthorizedSeller,
    /// A metadata string exceeded the maximum allowed length.
    MetadataTooLong,
}

/// The stable numeric code of each error, in declaration order from 1.
pub open spec fn error_code(e: Error) -> u32 {
    match e {
        Error::AlreadyInitialized => 1,
        Error::NotInitialized => 2,
        Error::ProjectNotFound => 3,
        Error::ListingNotFound => 4,
        Error::RetirementNotFound => 5,
        Error::InvalidAmount => 6,
        Error::InsufficientAvailable => 7,
        Error::InsufficientBalance => 8,
        Error::InsufficientListed => 9,
        Error::Overflow => 10,
        Error::NotAuthorizedAdmin => 11,
        Error::NotAuthorizedVerifier => 12,
        Error::NotAuthorizedSeller => 13,
        Error::MetadataTooLong => 14,
    }
}

impl Error {
    /// The stable numeric code a client sees for this error.
    pub fn code(&self) -> (c: u32)
        ensures
            c == error_code(*self),
    {
        match self {
            Error::AlreadyInitialized => 1,
            Error::NotInitialized => 2,
            Error::ProjectNotFound => 3,
            Error::ListingNotFound => 4,
            Error::RetirementNotFound => 5,
            Error::InvalidAmount => 6,
            Error::InsufficientAvailable => 7,
            Error::InsufficientBalance => 8,
            Error::InsufficientListed => 9,
            Error::Overflow => 10,
            Error::NotAuthorizedAdmin => 11,
            Error::NotAuthorizedVerifier => 12,
            Error::NotAuthorizedSeller => 13,
            Error::MetadataTooLong => 14,
        }
    }

}

} // verus!
