use vstd::prelude::*;

verus! {

/// Why an invocation was refused.  A refused invocation leaves the state as it was.
#[derive(Clone, Copy, Debug, PartialEq, Eq, Structural)]
pub enum Error {
    /// The token, listing or group named by the caller is unknown.
    NotFound,
    /// The caller lacks the role or approval the operation asks for.
    Unauthorized,
    /// The account would end up owning a token it may not own.
    DuplicateOwnership,
    /// Every identifier is in use and none has been retired.
    CapacityExceeded,
    /// The attached deposit does not cover the storage the operation occupies.
    InsufficientDeposit,
    /// The attached payment does not cover the listed price and its margin.
    InsufficientPayment,
    /// The approval id handed in differs from the one on record.
    ApprovalMismatch,
    /// The token is still inside its transfer lock.
    TransferLocked,
    /// The listing was made by an account that no longer owns the token.
    StaleListing,
    /// The one-time setup has already run.
    AlreadyInitialized,
    /// The one-time setup has not run yet.
    NotInitialized,
}

impl Error {
    /// The text shown to a caller for this refusal.
    pub open spec fn message_text(self) -> Seq<char> {
        match self {
            Error::NotFound => "Not found"@,
            Error::Unauthorized => "Caller is not authorized"@,
            Error::DuplicateOwnership => "Account already owns a token"@,
            Error::CapacityExceeded => "Cannot mint more than 1000 tokens"@,
            Error::InsufficientDeposit => "Insufficient deposit"@,
            Error::InsufficientPayment => "Insufficient payment"@,
            Error::ApprovalMismatch => "Approval id does not match"@,
            Error::TransferLocked => "Transfer not allowed until one year after mint"@,
            Error::StaleListing => "Listing no longer matches the token owner"@,
            Error::AlreadyInitialized => "Already initialized"@,
            Error::NotInitialized => "Contract not initialized"@,
        }
    }

    /// Writes out the text shown to a caller for this refusal.
    pub fn message(&self) -> (text: String)
        ensures
            text@ == self.message_text(),
    {
        match self {
            Error::NotFound => String::from_str("Not found"),
            Error::Unauthorized => String::from_str("Caller is not authorized"),
            Error::DuplicateOwnership => String::from_str("Account already owns a token"),
            Error::CapacityExceeded => String::from_str("Cannot mint more than 1000 tokens"),
            Error::InsufficientDeposit => String::from_str("Insufficient deposit"),
            Error::InsufficientPayment => String::from_str("Insufficient payment"),
            Error::ApprovalMismatch => String::from_str("Approval id does not match"),
            Error::TransferLocked => String::from_str(
                "Transfer not allowed until one year after mint",
            ),
            Error::StaleListing => String::from_str("Listing no longer matches the token owner"),
            Error::AlreadyInitialized => String::from_str("Already initialized"),
            Error::NotInitialized => String::from_str("Contract not initialized"),
        }
    }
}

} // verus!
