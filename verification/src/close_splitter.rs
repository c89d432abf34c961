use vstd::prelude::*;

use crate::errors::RevenueError;
use crate::states::{Splitter, SplitterView, WalletId};

verus! {

/// What close returns: the record's whole remaining balance, refunded to
/// the authority as its storage backing is reclaimed, or the error that
/// blocks closing. Close is legal only once no distributable surplus is
/// left above the minimum reserve.
pub open spec fn close_spec(
    v: SplitterView,
    caller: WalletId,
    current_balance: u64,
    min_balance: u64,
) -> Result<u64, RevenueError> {
    if caller != v.authority {
        Err(RevenueError::Unauthorized)
    } else if current_balance > min_balance {
        Err(RevenueError::SplitterHasFunds)
    } else {
        Ok(current_balance)
    }
}

/// Reclaims the record once its balance holds no surplus above the
/// minimum reserve. Only the authority may call. On success the host
/// deallocates the record and returns the whole remaining balance — the
/// reserve — to the authority; the returned value is that refund.
pub fn close_splitter(
    sp: &Splitter,
    caller: WalletId,
    current_balance: u64,
    min_balance: u64,
) -> (r: Result<u64, RevenueError>)
    ensures
        (match r {
            Ok(refund) => close_spec(sp@, caller, current_balance, min_balance)
                == Ok::<u64, RevenueError>(refund),
            Err(e) => close_spec(sp@, caller, current_balance, min_balance)
                == Err::<u64, RevenueError>(e),
        }),
        (r matches Err(RevenueError::Unauthorized)) <==> caller != sp@.authority,
        caller == sp@.authority ==> ((r matches Err(RevenueError::SplitterHasFunds))
            <==> current_balance > min_balance),
        r is Ok <==> caller == sp@.authority && current_balance <= min_balance,
        r matches Ok(refund) ==> refund == current_balance,
{
    if caller != sp.authority {
        return Err(RevenueError::Unauthorized);
    }
    if current_balance > min_balance {
        return Err(RevenueError::SplitterHasFunds);
    }
    Ok(current_balance)
}

} // verus!
