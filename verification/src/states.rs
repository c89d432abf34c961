use vstd::prelude::*;

verus! {

/// Upper bound on the number of recipients a splitter record may hold.
pub const MAX_RECIPIENTS: usize = 10;

/// Opaque identity of an account on the host ledger. The module never
/// inspects an identity; it only compares identities for equality.
#[derive(Clone, Copy, PartialEq, Eq, Structural, Debug)]
pub struct WalletId(pub u64);

/// One stored entitlement: a wallet and its relative weight. The same
/// wallet may appear more than once; each occurrence is independent.
#[derive(Clone, Copy, PartialEq, Eq, Structural, Debug)]
pub struct Recipient {
    pub wallet: WalletId,
    pub share: u16,
}

/// A caller-supplied recipient entry, validated and copied by create.
#[derive(Clone, Copy, PartialEq, Eq, Structural, Debug)]
pub struct RecipientInput {
    pub wallet: WalletId,
    pub share: u16,
}

/// The persisted splitter record: configuration for one authority's
/// distribution pool. The held balance lives on the host ledger and is
/// passed to each operation separately.
#[derive(Debug)]
pub struct Splitter {
    /// Identity permitted to distribute and close; fixed at creation.
    pub authority: WalletId,
    /// Ordered entitlements; order is meaningful (the last entry absorbs
    /// the rounding remainder of every distribution).
    pub recipients: Vec<Recipient>,
    /// Sum of all recipient shares, stored redundantly.
    pub total_shares: u16,
    /// Salt with which the record's deterministic address was derived.
    pub bump: u8,
}

/// Mathematical image of a splitter record.
pub struct SplitterView {
    pub authority: WalletId,
    pub recipients: Seq<Recipient>,
    pub total_shares: u16,
    pub bump: u8,
}

impl View for Splitter {
    type V = SplitterView;

    open spec fn view(&self) -> SplitterView {
        SplitterView {
            authority: self.authority,
            recipients: self.recipients@,
            total_shares: self.total_shares,
            bump: self.bump,
        }
    }
}

/// Sum of the shares of the first `i` recipients.
pub open spec fn sum_shares_to(rs: Seq<Recipient>, i: int) -> int
    decreases i,
{
    if i <= 0 {
        0
    } else {
        sum_shares_to(rs, i - 1) + rs[i - 1].share
    }
}

/// Sum of all recipient shares.
pub open spec fn sum_shares(rs: Seq<Recipient>) -> int {
    sum_shares_to(rs, rs.len() as int)
}

impl SplitterView {
    /// Well-formedness: what create establishes and every later
    /// transition preserves.
    pub open spec fn wf(self) -> bool {
        &&& 1 <= self.recipients.len() <= MAX_RECIPIENTS
        &&& forall|i: int| 0 <= i < self.recipients.len() ==> self.recipients[i].share > 0
        &&& self.total_shares == sum_shares(self.recipients)
    }
}

/// Prefix sums of shares grow with the prefix.
pub proof fn lemma_sum_shares_to_monotonic(rs: Seq<Recipient>, i: int, j: int)
    requires
        0 <= i <= j <= rs.len(),
    ensures
        sum_shares_to(rs, i) <= sum_shares_to(rs, j),
    decreases j,
{
    if i < j {
        lemma_sum_shares_to_monotonic(rs, i, j - 1);
    }
}

/// With every share positive, the sum of the first `i` shares is at least `i`.
pub proof fn lemma_sum_shares_to_at_least_len(rs: Seq<Recipient>, i: int)
    requires
        0 <= i <= rs.len(),
        forall|j: int| 0 <= j < rs.len() ==> rs[j].share > 0,
    ensures
        sum_shares_to(rs, i) >= i,
    decreases i,
{
    if i > 0 {
        lemma_sum_shares_to_at_least_len(rs, i - 1);
    }
}

/// Each single share is bounded by any prefix sum that covers it.
pub proof fn lemma_share_le_sum_to(rs: Seq<Recipient>, i: int, j: int)
    requires
        0 <= i < j <= rs.len(),
    ensures
        rs[i].share <= sum_shares_to(rs, j),
    decreases j,
{
    if i == j - 1 {
        lemma_sum_shares_to_monotonic(rs, 0, i);
    } else {
        lemma_share_le_sum_to(rs, i, j - 1);
    }
}

} // verus!
