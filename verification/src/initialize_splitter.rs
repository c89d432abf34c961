use vstd::prelude::*;

use crate::errors::RevenueError;
use crate::states::{
    sum_shares, sum_shares_to, Recipient, RecipientInput, Splitter, SplitterView, WalletId,
    MAX_RECIPIENTS,
};

verus! {

/// Sum of the shares of the first `i` caller-supplied entries.
pub open spec fn sum_input_shares_to(rs: Seq<RecipientInput>, i: int) -> int
    decreases i,
{
    if i <= 0 {
        0
    } else {
        sum_input_shares_to(rs, i - 1) + rs[i - 1].share
    }
}

/// Sum of all caller-supplied shares.
pub open spec fn sum_input_shares(rs: Seq<RecipientInput>) -> int {
    sum_input_shares_to(rs, rs.len() as int)
}

/// A recipient list that create accepts: non-empty, within the length
/// bound, every share positive, and the share sum within `u16`.
pub open spec fn valid_recipients(rs: Seq<RecipientInput>) -> bool {
    &&& 1 <= rs.len() <= MAX_RECIPIENTS
    &&& forall|i: int| 0 <= i < rs.len() ==> rs[i].share > 0
    &&& sum_input_shares(rs) <= u16::MAX
}

/// The entries as the record stores them, order preserved.
pub open spec fn stored_recipients(rs: Seq<RecipientInput>) -> Seq<Recipient> {
    rs.map(|i: int, r: RecipientInput| Recipient { wallet: r.wallet, share: r.share })
}

/// What create returns: the fully validated record, or the error of the
/// first validation that fails, the checks in order — an empty list, an
/// over-long list, a zero share anywhere in the list, a share sum that
/// leaves `u16`. No funds move during create.
pub open spec fn create_spec(
    authority: WalletId,
    rs: Seq<RecipientInput>,
    bump: u8,
) -> Result<SplitterView, RevenueError> {
    if rs.len() == 0 {
        Err(RevenueError::NoRecipients)
    } else if rs.len() > MAX_RECIPIENTS {
        Err(RevenueError::TooManyRecipients)
    } else if exists|i: int| 0 <= i < rs.len() && rs[i].share == 0 {
        Err(RevenueError::ZeroShare)
    } else if sum_input_shares(rs) > u16::MAX {
        Err(RevenueError::MathOverflow)
    } else {
        Ok(
            SplitterView {
                authority,
                recipients: stored_recipients(rs),
                total_shares: sum_input_shares(rs) as u16,
                bump,
            },
        )
    }
}

/// Prefix sums of input shares grow with the prefix.
pub(crate) proof fn lemma_sum_input_shares_to_monotonic(rs: Seq<RecipientInput>, i: int, j: int)
    requires
        0 <= i <= j <= rs.len(),
    ensures
        sum_input_shares_to(rs, i) <= sum_input_shares_to(rs, j),
    decreases j,
{
    if i < j {
        lemma_sum_input_shares_to_monotonic(rs, i, j - 1);
    }
}

/// Storing the entries keeps each prefix's share sum.
pub(crate) proof fn lemma_sum_shares_stored(rs: Seq<RecipientInput>, i: int)
    requires
        0 <= i <= rs.len(),
    ensures
        sum_shares_to(stored_recipients(rs), i) == sum_input_shares_to(rs, i),
    decreases i,
{
    if i > 0 {
        lemma_sum_shares_stored(rs, i - 1);
    }
}

/// Validates a caller-supplied recipient list and builds the splitter
/// record for `authority`. The checks run in order: an empty list, an
/// over-long list, a zero share anywhere in the list, a share sum that
/// leaves `u16`. On success the record holds the entries in the
/// caller's order, their exact share sum, and the derivation salt.
pub fn initialize_splitter(
    authority: WalletId,
    recipients: &Vec<RecipientInput>,
    bump: u8,
) -> (r: Result<Splitter, RevenueError>)
    ensures
        r is Ok <==> valid_recipients(recipients@),
        (match r {
            Ok(sp) => create_spec(authority, recipients@, bump)
                == Ok::<SplitterView, RevenueError>(sp@) && sp@.wf(),
            Err(e) => create_spec(authority, recipients@, bump)
                == Err::<SplitterView, RevenueError>(e),
        }),
{
    let ghost rs = recipients@;
    if recipients.len() == 0 {
        return Err(RevenueError::NoRecipients);
    }
    if recipients.len() > MAX_RECIPIENTS {
        return Err(RevenueError::TooManyRecipients);
    }

    let n = recipients.len();
    let mut i: usize = 0;
    while i < n
        invariant
            0 <= i <= n,
            n == rs.len(),
            1 <= n <= MAX_RECIPIENTS,
            rs == recipients@,
            forall|j: int| 0 <= j < i ==> rs[j].share > 0,
        decreases n - i,
    {
        if recipients[i].share == 0 {
            proof {
                assert(rs[i as int].share == 0);
            }
            return Err(RevenueError::ZeroShare);
        }
        i = i + 1;
    }

    let mut total_shares: u16 = 0;
    let mut stored: Vec<Recipient> = Vec::new();
    let mut k: usize = 0;
    while k < n
        invariant
            0 <= k <= n,
            n == rs.len(),
            1 <= n <= MAX_RECIPIENTS,
            rs == recipients@,
            forall|j: int| 0 <= j < n ==> rs[j].share > 0,
            forall|j: int| 0 <= j <= k ==> sum_input_shares_to(rs, j) <= u16::MAX,
            total_shares as int == sum_input_shares_to(rs, k as int),
            stored@.len() == k,
            forall|j: int| 0 <= j < k ==> stored@[j] == (Recipient {
                wallet: rs[j].wallet,
                share: rs[j].share,
            }),
        decreases n - k,
    {
        let entry = recipients[k];
        if entry.share > u16::MAX - total_shares {
            proof {
                lemma_sum_input_shares_to_monotonic(rs, k as int + 1, rs.len() as int);
                assert(sum_input_shares(rs) > u16::MAX);
            }
            return Err(RevenueError::MathOverflow);
        }
        total_shares = total_shares + entry.share;
        stored.push(Recipient { wallet: entry.wallet, share: entry.share });
        k = k + 1;
    }

    proof {
        assert(valid_recipients(rs));
        assert(stored@ =~= stored_recipients(rs));
        lemma_sum_shares_stored(rs, rs.len() as int);
        assert(sum_shares(stored_recipients(rs)) == sum_input_shares(rs));
    }
    Ok(Splitter { authority, recipients: stored, total_shares, bump })
}

} // verus!
