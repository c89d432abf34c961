//! A revenue splitter: a state-transition module that accumulates value on
//! a per-authority record and distributes the surplus above the record's
//! minimum reserve to a fixed, ordered list of weighted recipients.
//!
//! The host ledger invokes each operation as one atomic transaction. It
//! reads the record's balance and minimum reserve, hands both to the
//! operation together with the authenticated caller, and applies the
//! returned effect in full or not at all: a failed operation changes
//! nothing.

pub mod close_splitter;
pub mod distribute_funds;
pub mod errors;
pub mod initialize_splitter;
pub mod laws;
pub mod math;
pub mod states;

use vstd::prelude::*;

use crate::close_splitter::close_spec;
use crate::distribute_funds::{distribute_spec, Transfer};
use crate::errors::RevenueError;
use crate::initialize_splitter::create_spec;
use crate::states::{RecipientInput, Splitter, SplitterView, WalletId};

verus! {

/// Entry point for create: validates the recipient list and builds the
/// record for `authority`. See `initialize_splitter`.
pub fn initialize(
    authority: WalletId,
    recipients: &Vec<RecipientInput>,
    bump: u8,
) -> (r: Result<Splitter, RevenueError>)
    ensures
        (match r {
            Ok(sp) => create_spec(authority, recipients@, bump)
                == Ok::<SplitterView, RevenueError>(sp@) && sp@.wf(),
            Err(e) => create_spec(authority, recipients@, bump)
                == Err::<SplitterView, RevenueError>(e),
        }),
{
    initialize_splitter::initialize_splitter(authority, recipients, bump)
}

/// Entry point for distribute: moves the record's whole surplus to the
/// recipients. See `distribute_funds`.
pub fn distribute(
    sp: &Splitter,
    caller: WalletId,
    current_balance: u64,
    min_balance: u64,
    accounts: &Vec<WalletId>,
) -> (r: Result<Vec<Transfer>, RevenueError>)
    ensures
        (match r {
            Ok(ts) => distribute_spec(sp@, caller, current_balance, min_balance, accounts@)
                == Ok::<Seq<Transfer>, RevenueError>(ts@),
            Err(e) => distribute_spec(sp@, caller, current_balance, min_balance, accounts@)
                == Err::<Seq<Transfer>, RevenueError>(e),
        }),
{
    distribute_funds::distribute_funds(sp, caller, current_balance, min_balance, accounts)
}

/// Entry point for close: reclaims a record with no surplus left. See
/// `close_splitter`.
pub fn close(
    sp: &Splitter,
    caller: WalletId,
    current_balance: u64,
    min_balance: u64,
) -> (r: Result<u64, RevenueError>)
    ensures
        (match r {
            Ok(refund) => close_spec(sp@, caller, current_balance, min_balance)
                == Ok::<u64, RevenueError>(refund),
            Err(e) => close_spec(sp@, caller, current_balance, min_balance)
                == Err::<u64, RevenueError>(e),
        }),
{
    close_splitter::close_splitter(sp, caller, current_balance, min_balance)
}

} // verus!
