use vstd::prelude::*;

use crate::close_splitter::close_spec;
use crate::distribute_funds::{
    amount_at, distribute_spec, floor_part, lemma_prefix_parts_bounds, lemma_run_distribute_from,
    prefix_parts, sum_amounts, Transfer,
};
use crate::errors::RevenueError;
use crate::initialize_splitter::{
    create_spec, lemma_sum_input_shares_to_monotonic, lemma_sum_shares_stored, stored_recipients,
    sum_input_shares, valid_recipients,
};
use crate::states::{
    lemma_sum_shares_to_at_least_len, sum_shares_to, Recipient, RecipientInput, SplitterView,
    WalletId,
};
use vstd::arithmetic::div_mod::lemma_div_by_multiple;

verus! {

/// A record that create accepts is well formed: its at-rest invariant —
/// bounded length, positive shares, `total_shares` the exact share sum —
/// holds, the caller became the authority, and the entries were stored
/// in the caller's order.
pub proof fn lemma_create_well_formed(
    authority: WalletId,
    inputs: Seq<RecipientInput>,
    bump: u8,
    v: SplitterView,
)
    requires
        create_spec(authority, inputs, bump) == Ok::<SplitterView, RevenueError>(v),
    ensures
        v.wf(),
        v.authority == authority,
        v.bump == bump,
        v.recipients == stored_recipients(inputs),
        v.total_shares as int == sum_input_shares(inputs),
{
    let stored = stored_recipients(inputs);
    lemma_sum_input_shares_to_monotonic(inputs, 0, inputs.len() as int);
    lemma_sum_shares_stored(inputs, inputs.len() as int);
    assert(valid_recipients(inputs));
    assert forall|i: int| 0 <= i < stored.len() implies stored[i].share > 0 by {
        assert(stored[i] == (Recipient { wallet: inputs[i].wallet, share: inputs[i].share }));
    }
}

/// A record created with no surplus yet accrued has nothing to give out:
/// create moves no funds, so a distribute that follows at once — balance
/// still equal to the reserve — fails with `NothingToDistribute`,
/// whatever the recipient configuration.
pub proof fn lemma_fresh_splitter_has_nothing_to_distribute(
    authority: WalletId,
    inputs: Seq<RecipientInput>,
    bump: u8,
    v: SplitterView,
    balance: u64,
    accounts: Seq<WalletId>,
)
    requires
        create_spec(authority, inputs, bump) == Ok::<SplitterView, RevenueError>(v),
    ensures
        distribute_spec(v, authority, balance, balance, accounts) == Err::<
            Seq<Transfer>,
            RevenueError,
        >(RevenueError::NothingToDistribute),
{
}

/// Distribution loses nothing and invents nothing: for every positive
/// surplus and well-formed configuration, with every recipient wallet
/// presented, distribute succeeds and the transfer amounts sum to the
/// surplus exactly — no dust stays behind, nothing is overdrawn.
pub proof fn lemma_distribute_exhausts_surplus(
    v: SplitterView,
    current_balance: u64,
    min_balance: u64,
    accounts: Seq<WalletId>,
)
    requires
        v.wf(),
        current_balance > min_balance,
        forall|j: int|
            0 <= j < v.recipients.len() ==> accounts.contains(v.recipients[j].wallet),
    ensures
        ({
            let r = distribute_spec(v, v.authority, current_balance, min_balance, accounts);
            &&& r is Ok
            &&& sum_amounts(r->Ok_0) == current_balance - min_balance
            &&& forall|j: int| 0 <= j < r->Ok_0.len() ==> r->Ok_0[j].amount > 0
        }),
{
    lemma_run_distribute_from(
        v.recipients,
        (current_balance - min_balance) as u64,
        v.total_shares,
        accounts,
        0,
        0,
        Seq::empty(),
    );
}

/// The rounding remainder all falls to the last recipient in stored
/// order, and stays small: the last amount is its rounded proportional
/// part plus strictly less than `total_shares`.
pub proof fn lemma_remainder_below_total_shares(v: SplitterView, avail: u64)
    requires
        v.wf(),
    ensures
        ({
            let n = v.recipients.len() as int;
            let t = v.total_shares as int;
            let last = amount_at(v.recipients, avail as int, t, n - 1);
            let part = floor_part(avail as int, v.recipients[n - 1].share as int, t);
            &&& part <= last
            &&& last - part < v.total_shares
        }),
{
    let rs = v.recipients;
    let n = rs.len() as int;
    let t = v.total_shares as int;
    let av = avail as int;
    lemma_sum_shares_to_at_least_len(rs, n);
    lemma_prefix_parts_bounds(rs, av, t, n);
    assert(sum_shares_to(rs, n) == t);
    lemma_div_by_multiple(av, t);
    assert(prefix_parts(rs, av, t, n) == prefix_parts(rs, av, t, n - 1) + floor_part(
        av,
        rs[n - 1].share as int,
        t,
    ));
}

/// Distribute is repeatable: it acts only on the surplus present at call
/// time. A successful run moves exactly the surplus, leaving the balance
/// at the reserve, so an immediate second call fails with
/// `NothingToDistribute`; once new surplus accrues, a later call
/// succeeds and exhausts exactly the new surplus.
pub proof fn lemma_distribute_repeatable(
    v: SplitterView,
    min_balance: u64,
    accounts: Seq<WalletId>,
    new_balance: u64,
)
    requires
        v.wf(),
        forall|j: int|
            0 <= j < v.recipients.len() ==> accounts.contains(v.recipients[j].wallet),
    ensures
        distribute_spec(v, v.authority, min_balance, min_balance, accounts) == Err::<
            Seq<Transfer>,
            RevenueError,
        >(RevenueError::NothingToDistribute),
        new_balance > min_balance ==> ({
            let r = distribute_spec(v, v.authority, new_balance, min_balance, accounts);
            &&& r is Ok
            &&& sum_amounts(r->Ok_0) == new_balance - min_balance
        }),
{
    if new_balance > min_balance {
        lemma_distribute_exhausts_surplus(v, new_balance, min_balance, accounts);
    }
}

/// Close succeeds exactly when the balance sits at the reserve: with the
/// at-rest bound `balance >= reserve`, any surplus, however small,
/// blocks close with `SplitterHasFunds`.
pub proof fn lemma_close_exactly_at_reserve(v: SplitterView, current_balance: u64, min_balance: u64)
    requires
        current_balance >= min_balance,
    ensures
        (close_spec(v, v.authority, current_balance, min_balance) is Ok) <==> current_balance
            == min_balance,
        current_balance > min_balance ==> close_spec(v, v.authority, current_balance, min_balance)
            == Err::<u64, RevenueError>(RevenueError::SplitterHasFunds),
{
}

/// Access control is absolute: any caller other than the authority is
/// rejected by distribute and by close with `Unauthorized`, whatever the
/// balance or the presented accounts.
pub proof fn lemma_non_authority_rejected(
    v: SplitterView,
    caller: WalletId,
    current_balance: u64,
    min_balance: u64,
    accounts: Seq<WalletId>,
)
    requires
        caller != v.authority,
    ensures
        distribute_spec(v, caller, current_balance, min_balance, accounts) == Err::<
            Seq<Transfer>,
            RevenueError,
        >(RevenueError::Unauthorized),
        close_spec(v, caller, current_balance, min_balance) == Err::<u64, RevenueError>(
            RevenueError::Unauthorized,
        ),
{
}

} // verus!
