use vstd::prelude::*;

use crate::errors::RevenueError;
use crate::math::{lemma_floor_sum_bounds, lemma_scaled_part_le};
use crate::states::{
    lemma_share_le_sum_to, lemma_sum_shares_to_at_least_len, lemma_sum_shares_to_monotonic,
    sum_shares, sum_shares_to, Recipient, Splitter, SplitterView, WalletId,
};
use vstd::arithmetic::mul::lemma_mul_nonnegative;

verus! {

/// One balance movement the host must apply: `amount` leaves the record
/// and reaches the account `to`.
#[derive(Clone, Copy, PartialEq, Eq, Structural, Debug)]
pub struct Transfer {
    pub to: WalletId,
    pub amount: u64,
}

/// Sum of the amounts of the first `i` transfers.
pub open spec fn sum_amounts_to(ts: Seq<Transfer>, i: int) -> int
    decreases i,
{
    if i <= 0 {
        0
    } else {
        sum_amounts_to(ts, i - 1) + ts[i - 1].amount
    }
}

/// Sum of all transfer amounts.
pub open spec fn sum_amounts(ts: Seq<Transfer>) -> int {
    sum_amounts_to(ts, ts.len() as int)
}

/// A recipient's proportional part of the surplus, rounded down:
/// `floor(avail * share / total)`.
pub open spec fn floor_part(avail: int, share: int, total: int) -> int {
    avail * share / total
}

/// Sum of the proportional parts of the first `i` recipients.
pub open spec fn prefix_parts(rs: Seq<Recipient>, avail: int, total: int, i: int) -> int
    decreases i,
{
    if i <= 0 {
        0
    } else {
        prefix_parts(rs, avail, total, i - 1) + floor_part(avail, rs[i - 1].share as int, total)
    }
}

/// What recipient `i` is entitled to out of surplus `avail`: its rounded
/// proportional part, except that the last recipient in stored order
/// receives the exact remainder of the surplus.
pub open spec fn amount_at(rs: Seq<Recipient>, avail: int, total: int, i: int) -> int {
    if i == rs.len() - 1 {
        avail - prefix_parts(rs, avail, total, i)
    } else {
        floor_part(avail, rs[i].share as int, total)
    }
}

/// The checked amount computed for recipient `i` with `distributed`
/// already handed out: the exact remainder for the last recipient, the
/// rounded proportional part for every other, and `MathOverflow` for any
/// step that would underflow, divide by zero, or leave `u64`.
pub open spec fn step_amount(
    rs: Seq<Recipient>,
    avail: u64,
    total: u16,
    i: int,
    distributed: u64,
) -> Result<u64, RevenueError> {
    if i == rs.len() - 1 {
        if distributed <= avail {
            Ok((avail - distributed) as u64)
        } else {
            Err(RevenueError::MathOverflow)
        }
    } else if total == 0 {
        Err(RevenueError::MathOverflow)
    } else if floor_part(avail as int, rs[i].share as int, total as int) > u64::MAX {
        Err(RevenueError::MathOverflow)
    } else {
        Ok(floor_part(avail as int, rs[i].share as int, total as int) as u64)
    }
}

/// The allocation loop from recipient `i` on, with `distributed` already
/// handed out and `acc` the transfers emitted so far. Each recipient's
/// wallet must be presented in `accounts` before its amount is computed;
/// zero amounts are skipped, not failed.
pub open spec fn run_distribute(
    rs: Seq<Recipient>,
    avail: u64,
    total: u16,
    accounts: Seq<WalletId>,
    i: int,
    distributed: u64,
    acc: Seq<Transfer>,
) -> Result<Seq<Transfer>, RevenueError>
    decreases rs.len() - i,
{
    if i < 0 || i >= rs.len() {
        Ok(acc)
    } else if !accounts.contains(rs[i].wallet) {
        Err(RevenueError::MissingRecipientAccount)
    } else {
        match step_amount(rs, avail, total, i, distributed) {
            Err(e) => Err(e),
            Ok(amount) => {
                if amount == 0 {
                    run_distribute(rs, avail, total, accounts, i + 1, distributed, acc)
                } else if distributed + amount > u64::MAX {
                    Err(RevenueError::MathOverflow)
                } else {
                    run_distribute(
                        rs,
                        avail,
                        total,
                        accounts,
                        i + 1,
                        (distributed + amount) as u64,
                        acc.push(Transfer { to: rs[i].wallet, amount }),
                    )
                }
            },
        }
    }
}

/// What distribute returns: the transfers that move the whole surplus,
/// or the first error its checks meet, in order. The record itself is
/// not changed; only its balance drops, by exactly the surplus.
pub open spec fn distribute_spec(
    v: SplitterView,
    caller: WalletId,
    current_balance: u64,
    min_balance: u64,
    accounts: Seq<WalletId>,
) -> Result<Seq<Transfer>, RevenueError> {
    if caller != v.authority {
        Err(RevenueError::Unauthorized)
    } else if current_balance <= min_balance {
        Err(RevenueError::NothingToDistribute)
    } else if v.recipients.len() == 0 {
        Err(RevenueError::NoRecipients)
    } else {
        run_distribute(
            v.recipients,
            (current_balance - min_balance) as u64,
            v.total_shares,
            accounts,
            0,
            0,
            Seq::empty(),
        )
    }
}

/// Two sequences equal on a prefix have equal prefix sums.
proof fn lemma_sum_amounts_to_agree(a: Seq<Transfer>, b: Seq<Transfer>, i: int)
    requires
        0 <= i <= a.len(),
        i <= b.len(),
        forall|j: int| 0 <= j < i ==> a[j] == b[j],
    ensures
        sum_amounts_to(a, i) == sum_amounts_to(b, i),
    decreases i,
{
    if i > 0 {
        lemma_sum_amounts_to_agree(a, b, i - 1);
    }
}

/// Appending a transfer adds its amount to the sum.
proof fn lemma_sum_amounts_push(ts: Seq<Transfer>, t: Transfer)
    ensures
        sum_amounts(ts.push(t)) == sum_amounts(ts) + t.amount,
{
    lemma_sum_amounts_to_agree(ts.push(t), ts, ts.len() as int);
    assert(ts.push(t)[ts.len() as int] == t);
}

/// The summed proportional parts of a prefix track the scaled prefix of
/// the share sum: they never exceed `avail * shares / total`, and each
/// merge past the first loses at most one unit.
pub proof fn lemma_prefix_parts_bounds(rs: Seq<Recipient>, avail: int, total: int, i: int)
    requires
        avail >= 0,
        total > 0,
        0 <= i <= rs.len(),
    ensures
        prefix_parts(rs, avail, total, i) <= avail * sum_shares_to(rs, i) / total,
        prefix_parts(rs, avail, total, i) >= avail * sum_shares_to(rs, i) / total - (
        if i <= 1 {
            0int
        } else {
            i - 1
        }),
    decreases i,
{
    if i == 0 {
        assert(avail * 0 == 0) by (nonlinear_arith);
        assert(0int / total == 0) by (nonlinear_arith)
            requires
                total > 0,
        ;
    } else {
        lemma_prefix_parts_bounds(rs, avail, total, i - 1);
        lemma_sum_shares_to_monotonic(rs, 0, i - 1);
        let s = rs[i - 1].share as int;
        let x = avail * sum_shares_to(rs, i - 1);
        let y = avail * s;
        lemma_mul_nonnegative(avail, sum_shares_to(rs, i - 1));
        lemma_mul_nonnegative(avail, s);
        assert(x + y == avail * sum_shares_to(rs, i)) by (nonlinear_arith)
            requires
                x == avail * sum_shares_to(rs, i - 1),
                y == avail * s,
                sum_shares_to(rs, i) == sum_shares_to(rs, i - 1) + s,
        ;
        lemma_floor_sum_bounds(x, y, total);
    }
    lemma_sum_shares_to_monotonic(rs, 0, i);
}

/// Under a well-formed configuration, with every wallet from `i` on
/// presented, the allocation loop completes: no arithmetic step faults,
/// every emitted amount is positive, and the amounts sum to the whole
/// surplus. With some wallet from `i` on absent, it fails with
/// `MissingRecipientAccount`.
pub(crate) proof fn lemma_run_distribute_from(
    rs: Seq<Recipient>,
    avail: u64,
    total: u16,
    accounts: Seq<WalletId>,
    i: int,
    distributed: u64,
    acc: Seq<Transfer>,
)
    requires
        total as int == sum_shares(rs),
        forall|j: int| 0 <= j < rs.len() ==> rs[j].share > 0,
        1 <= rs.len(),
        avail >= 1,
        0 <= i < rs.len(),
        distributed as int == prefix_parts(rs, avail as int, total as int, i),
        sum_amounts(acc) == distributed as int,
        forall|j: int| 0 <= j < acc.len() ==> acc[j].amount > 0,
    ensures
        (forall|j: int| i <= j < rs.len() ==> accounts.contains(rs[j].wallet)) ==> ({
            let r = run_distribute(rs, avail, total, accounts, i, distributed, acc);
            &&& r is Ok
            &&& sum_amounts(r->Ok_0) == avail
            &&& forall|j: int| 0 <= j < r->Ok_0.len() ==> r->Ok_0[j].amount > 0
        }),
        !(forall|j: int| i <= j < rs.len() ==> accounts.contains(rs[j].wallet))
            ==> run_distribute(rs, avail, total, accounts, i, distributed, acc) == Err::<
            Seq<Transfer>,
            RevenueError,
        >(RevenueError::MissingRecipientAccount),
    decreases rs.len() - i,
{
    let av = avail as int;
    let t = total as int;
    let n = rs.len() as int;
    lemma_sum_shares_to_at_least_len(rs, n);
    assert(t >= 1);
    if !accounts.contains(rs[i].wallet) {
        assert(!(forall|j: int| i <= j < rs.len() ==> accounts.contains(rs[j].wallet)));
    } else {
        lemma_prefix_parts_bounds(rs, av, t, i);
        lemma_sum_shares_to_monotonic(rs, 0, i);
        lemma_sum_shares_to_monotonic(rs, i, n);
        lemma_scaled_part_le(av, sum_shares_to(rs, i), t);
        assert(distributed <= avail);
        if i == n - 1 {
            let amount = (avail - distributed) as u64;
            assert(step_amount(rs, avail, total, i, distributed) == Ok::<u64, RevenueError>(
                amount,
            ));
            if amount == 0 {
                assert(run_distribute(rs, avail, total, accounts, i + 1, distributed, acc)
                    == Ok::<Seq<Transfer>, RevenueError>(acc));
                assert(run_distribute(rs, avail, total, accounts, i, distributed, acc)
                    == Ok::<Seq<Transfer>, RevenueError>(acc));
            } else {
                let acc2 = acc.push(Transfer { to: rs[i].wallet, amount });
                let d2 = (distributed + amount) as u64;
                lemma_sum_amounts_push(acc, Transfer { to: rs[i].wallet, amount });
                assert(run_distribute(rs, avail, total, accounts, i + 1, d2, acc2)
                    == Ok::<Seq<Transfer>, RevenueError>(acc2));
                assert(run_distribute(rs, avail, total, accounts, i, distributed, acc)
                    == Ok::<Seq<Transfer>, RevenueError>(acc2));
                assert(forall|j: int| 0 <= j < acc2.len() ==> acc2[j].amount > 0);
            }
        } else {
            lemma_share_le_sum_to(rs, i, n);
            lemma_scaled_part_le(av, rs[i].share as int, t);
            let part = floor_part(av, rs[i].share as int, t);
            assert(0 <= part <= av);
            let amount = part as u64;
            assert(step_amount(rs, avail, total, i, distributed) == Ok::<u64, RevenueError>(
                amount,
            ));
            lemma_prefix_parts_bounds(rs, av, t, i + 1);
            lemma_sum_shares_to_monotonic(rs, 0, i + 1);
            lemma_sum_shares_to_monotonic(rs, i + 1, n);
            lemma_scaled_part_le(av, sum_shares_to(rs, i + 1), t);
            assert(prefix_parts(rs, av, t, i + 1) == distributed + part);
            assert(distributed + part <= avail);
            if amount == 0 {
                lemma_run_distribute_from(rs, avail, total, accounts, i + 1, distributed, acc);
                assert(run_distribute(rs, avail, total, accounts, i, distributed, acc)
                    == run_distribute(rs, avail, total, accounts, i + 1, distributed, acc));
            } else {
                let d2 = (distributed + amount) as u64;
                let acc2 = acc.push(Transfer { to: rs[i].wallet, amount });
                lemma_sum_amounts_push(acc, Transfer { to: rs[i].wallet, amount });
                lemma_run_distribute_from(rs, avail, total, accounts, i + 1, d2, acc2);
                assert(run_distribute(rs, avail, total, accounts, i, distributed, acc)
                    == run_distribute(rs, avail, total, accounts, i + 1, d2, acc2));
            }
            assert((forall|j: int| i <= j < rs.len() ==> accounts.contains(rs[j].wallet))
                <==> (forall|j: int| i + 1 <= j < rs.len() ==> accounts.contains(rs[j].wallet)));
        }
    }
}

/// Whatever the configuration, an allocation run that completes has
/// handed out exactly the surplus, in positive amounts: the last step
/// either pays the exact remainder or confirms nothing was left.
proof fn lemma_run_ok_exact(
    rs: Seq<Recipient>,
    avail: u64,
    total: u16,
    accounts: Seq<WalletId>,
    i: int,
    distributed: u64,
    acc: Seq<Transfer>,
)
    requires
        0 <= i < rs.len(),
        sum_amounts(acc) == distributed as int,
        forall|j: int| 0 <= j < acc.len() ==> acc[j].amount > 0,
    ensures
        (run_distribute(rs, avail, total, accounts, i, distributed, acc) is Ok) ==> ({
            let r = run_distribute(rs, avail, total, accounts, i, distributed, acc);
            &&& sum_amounts(r->Ok_0) == avail
            &&& forall|j: int| 0 <= j < r->Ok_0.len() ==> r->Ok_0[j].amount > 0
        }),
    decreases rs.len() - i,
{
    let n = rs.len() as int;
    if accounts.contains(rs[i].wallet) {
        match step_amount(rs, avail, total, i, distributed) {
            Err(_) => {},
            Ok(amount) => {
                if i == n - 1 {
                    if amount != 0 && distributed + amount <= u64::MAX {
                        lemma_sum_amounts_push(acc, Transfer { to: rs[i].wallet, amount });
                    }
                } else {
                    if amount == 0 {
                        lemma_run_ok_exact(rs, avail, total, accounts, i + 1, distributed, acc);
                    } else if distributed + amount <= u64::MAX {
                        lemma_sum_amounts_push(acc, Transfer { to: rs[i].wallet, amount });
                        lemma_run_ok_exact(
                            rs,
                            avail,
                            total,
                            accounts,
                            i + 1,
                            (distributed + amount) as u64,
                            acc.push(Transfer { to: rs[i].wallet, amount }),
                        );
                    }
                }
            },
        }
    }
}

/// The allocation loop itself fails only over a missing account or a
/// checked arithmetic step; the guard errors come before it.
proof fn lemma_run_err_kinds(
    rs: Seq<Recipient>,
    avail: u64,
    total: u16,
    accounts: Seq<WalletId>,
    i: int,
    distributed: u64,
    acc: Seq<Transfer>,
)
    requires
        0 <= i,
    ensures
        (run_distribute(rs, avail, total, accounts, i, distributed, acc) is Err) ==> (
        run_distribute(rs, avail, total, accounts, i, distributed, acc)->Err_0
            == RevenueError::MissingRecipientAccount || run_distribute(
            rs,
            avail,
            total,
            accounts,
            i,
            distributed,
            acc,
        )->Err_0 == RevenueError::MathOverflow),
    decreases rs.len() - i,
{
    if i < rs.len() && accounts.contains(rs[i].wallet) {
        match step_amount(rs, avail, total, i, distributed) {
            Err(_) => {},
            Ok(amount) => {
                if amount == 0 {
                    lemma_run_err_kinds(rs, avail, total, accounts, i + 1, distributed, acc);
                } else if distributed + amount <= u64::MAX {
                    lemma_run_err_kinds(
                        rs,
                        avail,
                        total,
                        accounts,
                        i + 1,
                        (distributed + amount) as u64,
                        acc.push(Transfer { to: rs[i].wallet, amount }),
                    );
                }
            },
        }
    }
}

/// Linear search for a wallet among the presented accounts.
fn contains_wallet(accounts: &Vec<WalletId>, w: WalletId) -> (b: bool)
    ensures
        b == accounts@.contains(w),
{
    let n = accounts.len();
    let mut i: usize = 0;
    while i < n
        invariant
            0 <= i <= n,
            n == accounts@.len(),
            forall|j: int| 0 <= j < i ==> accounts@[j] != w,
        decreases n - i,
    {
        if accounts[i] == w {
            assert(accounts@[i as int] == w);
            return true;
        }
        i = i + 1;
    }
    assert(!accounts@.contains(w));
    false
}

/// Distributes the record's whole surplus — the balance above the
/// minimum reserve — among the stored recipients in proportion to their
/// shares, rounding each part down and paying the exact remainder to the
/// last recipient. Only the authority may call. Every recipient wallet
/// must be presented in `accounts`; a missing one aborts the whole call
/// before any transfer. The returned transfers are the operation's
/// entire effect; the record's fields do not change.
#[verifier::loop_isolation(false)]
pub fn distribute_funds(
    sp: &Splitter,
    caller: WalletId,
    current_balance: u64,
    min_balance: u64,
    accounts: &Vec<WalletId>,
) -> (r: Result<Vec<Transfer>, RevenueError>)
    ensures
        (match r {
            Ok(ts) => distribute_spec(sp@, caller, current_balance, min_balance, accounts@)
                == Ok::<Seq<Transfer>, RevenueError>(ts@),
            Err(e) => distribute_spec(sp@, caller, current_balance, min_balance, accounts@)
                == Err::<Seq<Transfer>, RevenueError>(e),
        }),
        (r matches Err(RevenueError::Unauthorized)) <==> caller != sp@.authority,
        caller == sp@.authority ==> ((r matches Err(RevenueError::NothingToDistribute))
            <==> current_balance <= min_balance),
        (match r {
            Ok(ts) => sum_amounts(ts@) == current_balance - min_balance && forall|j: int|
                0 <= j < ts@.len() ==> ts@[j].amount > 0,
            Err(_) => true,
        }),
        sp@.wf() && caller == sp@.authority && current_balance > min_balance ==> (r is Ok
            <==> (forall|j: int|
            0 <= j < sp@.recipients.len() ==> accounts@.contains(sp@.recipients[j].wallet))),
        sp@.wf() && caller == sp@.authority && current_balance > min_balance && !(forall|j: int|
            0 <= j < sp@.recipients.len() ==> accounts@.contains(sp@.recipients[j].wallet))
            ==> (r matches Err(RevenueError::MissingRecipientAccount)),
{
    let ghost v = sp@;
    let ghost accs = accounts@;
    if caller != sp.authority {
        return Err(RevenueError::Unauthorized);
    }
    if current_balance <= min_balance {
        return Err(RevenueError::NothingToDistribute);
    }
    let available = current_balance - min_balance;
    let n = sp.recipients.len();
    if n == 0 {
        return Err(RevenueError::NoRecipients);
    }
    let total = sp.total_shares;

    proof {
        if v.wf() {
            lemma_run_distribute_from(v.recipients, available, total, accs, 0, 0, Seq::empty());
        }
        lemma_run_ok_exact(v.recipients, available, total, accs, 0, 0, Seq::empty());
        lemma_run_err_kinds(v.recipients, available, total, accs, 0, 0, Seq::empty());
    }

    let mut distributed: u64 = 0;
    let mut transfers: Vec<Transfer> = Vec::new();
    let mut i: usize = 0;
    while i < n
        invariant
            0 <= i <= n,
            n == v.recipients.len(),
            v == sp@,
            accs == accounts@,
            available == current_balance - min_balance,
            total == v.total_shares,
            run_distribute(v.recipients, available, total, accs, 0, 0, Seq::empty())
                == run_distribute(
                v.recipients,
                available,
                total,
                accs,
                i as int,
                distributed,
                transfers@,
            ),
        decreases n - i,
    {
        let ghost d0 = distributed;
        let ghost ts0 = transfers@;
        let wallet = sp.recipients[i].wallet;
        if !contains_wallet(accounts, wallet) {
            proof {
                assert(run_distribute(v.recipients, available, total, accs, i as int, d0, ts0)
                    == Err::<Seq<Transfer>, RevenueError>(RevenueError::MissingRecipientAccount));
            }
            return Err(RevenueError::MissingRecipientAccount);
        }
        let amount: u64;
        if i == n - 1 {
            if distributed > available {
                proof {
                    assert(run_distribute(v.recipients, available, total, accs, i as int, d0, ts0)
                        == Err::<Seq<Transfer>, RevenueError>(RevenueError::MathOverflow));
                }
                return Err(RevenueError::MathOverflow);
            }
            amount = available - distributed;
        } else {
            if total == 0 {
                proof {
                    assert(run_distribute(v.recipients, available, total, accs, i as int, d0, ts0)
                        == Err::<Seq<Transfer>, RevenueError>(RevenueError::MathOverflow));
                }
                return Err(RevenueError::MathOverflow);
            }
            proof {
                let s = v.recipients[i as int].share as int;
                assert((available as int) * s <= (u64::MAX as int) * (u16::MAX as int))
                    by (nonlinear_arith)
                    requires
                        0 <= available as int <= u64::MAX as int,
                        0 <= s <= u16::MAX as int,
                ;
            }
            let part: u128 = (available as u128) * (sp.recipients[i].share as u128) / (
            total as u128);
            assert(part == floor_part(
                available as int,
                v.recipients[i as int].share as int,
                total as int,
            ));
            if part > u64::MAX as u128 {
                proof {
                    assert(run_distribute(v.recipients, available, total, accs, i as int, d0, ts0)
                        == Err::<Seq<Transfer>, RevenueError>(RevenueError::MathOverflow));
                }
                return Err(RevenueError::MathOverflow);
            }
            amount = part as u64;
        }
        assert(step_amount(v.recipients, available, total, i as int, distributed)
            == Ok::<u64, RevenueError>(amount));
        if amount > 0 {
            if amount > u64::MAX - distributed {
                proof {
                    assert(run_distribute(v.recipients, available, total, accs, i as int, d0, ts0)
                        == Err::<Seq<Transfer>, RevenueError>(RevenueError::MathOverflow));
                }
                return Err(RevenueError::MathOverflow);
            }
            transfers.push(Transfer { to: wallet, amount });
            distributed = distributed + amount;
        }
        proof {
            assert(run_distribute(v.recipients, available, total, accs, i as int, d0, ts0)
                == run_distribute(
                v.recipients,
                available,
                total,
                accs,
                i as int + 1,
                distributed,
                transfers@,
            ));
        }
        i = i + 1;
    }
    assert(run_distribute(v.recipients, available, total, accs, 0, 0, Seq::empty())
        == Ok::<Seq<Transfer>, RevenueError>(transfers@));
    Ok(transfers)
}

} // verus!
