use vstd::prelude::*;
use crate::error::Error;

verus! {

/// The bytes an operation added to persistent storage: the growth from the
/// measurement taken before it to the one taken after it, and nothing when
/// storage shrank.
pub open spec fn bytes_written(initial_bytes: u64, final_bytes: u64) -> nat {
    if final_bytes >= initial_bytes {
        (final_bytes - initial_bytes) as nat
    } else {
        0
    }
}

/// The price of the bytes an operation added.
pub open spec fn storage_cost(initial_bytes: u64, final_bytes: u64, price_per_byte: u128) -> nat {
    bytes_written(initial_bytes, final_bytes) * (price_per_byte as nat)
}

/// What is handed back from a deposit after `cost` has been taken from it.
pub open spec fn refund_after(attached_deposit: u128, cost: nat) -> nat {
    if attached_deposit >= cost {
        (attached_deposit - cost) as nat
    } else {
        0
    }
}

/// Prices the storage an operation occupied and splits the attached deposit
/// into that cost and the remainder owed back to the caller.
pub fn refund(
    initial_bytes: u64,
    final_bytes: u64,
    price_per_byte: u128,
    attached_deposit: u128,
) -> (settled: Result<(u128, u128), Error>)
    ensures
        settled is Ok <==> storage_cost(initial_bytes, final_bytes, price_per_byte)
            <= attached_deposit,
        settled matches Ok((cost, back)) ==> {
            &&& cost == storage_cost(initial_bytes, final_bytes, price_per_byte)
            &&& back == refund_after(attached_deposit, cost as nat)
            &&& cost + back == attached_deposit
        },
        settled matches Err(e) ==> e == Error::InsufficientDeposit,
{
    let written: u128 = final_bytes.saturating_sub(initial_bytes) as u128;
    match written.checked_mul(price_per_byte) {
        Some(cost) => {
            if attached_deposit < cost {
                Err(Error::InsufficientDeposit)
            } else {
                Ok((cost, attached_deposit - cost))
            }
        },
        None => Err(Error::InsufficientDeposit),
    }
}

} // verus!
