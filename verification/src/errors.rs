use vstd::prelude::*;

verus! {

/// Every way an operation can fail. Each failure aborts the whole
/// operation; the host transaction commits nothing.
#[derive(Clone, Copy, PartialEq, Eq, Structural, Debug)]
pub enum RevenueError {
    /// Create or distribute saw an empty recipient list.
    NoRecipients,
    /// Create saw more than `MAX_RECIPIENTS` entries.
    TooManyRecipients,
    /// Create saw a recipient with share zero.
    ZeroShare,
    /// A checked arithmetic step overflowed, underflowed or divided by zero.
    MathOverflow,
    /// Distribute found no surplus above the record's minimum reserve.
    NothingToDistribute,
    /// The caller is not the record's authority.
    Unauthorized,
    /// A stored recipient wallet was not presented as an accessible account.
    MissingRecipientAccount,
    /// Close found surplus still waiting to be distributed.
    SplitterHasFunds,
}

impl RevenueError {
    /// The message the host surfaces beside each error code.
    pub fn message(&self) -> &'static str {
        match self {
            RevenueError::NoRecipients => "No recipients provided",
            RevenueError::TooManyRecipients => "Too many recipients",
            RevenueError::ZeroShare => "Share value cannot be zero",
            RevenueError::MathOverflow => "Math overflow",
            RevenueError::NothingToDistribute => "Nothing to distribute",
            RevenueError::Unauthorized => "Unauthorized",
            RevenueError::MissingRecipientAccount => "Missing recipient account among the presented accounts",
            RevenueError::SplitterHasFunds => "Splitter still has funds; distribute before closing",
        }
    }
}

} // verus!
