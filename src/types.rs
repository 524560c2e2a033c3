use vstd::prelude::*;

verus! {

/// An account address on the chain.
pub type Address = u64;

/// The identity of an on-chain object.
pub type ObjectId = u64;

/// The identifier the coin store hands out for each reservation.
pub type ReservationId = u64;

/// A versioned reference to an on-chain object: `(id, version, digest)`.
#[derive(Clone, Copy, Debug, PartialEq, Eq, Structural)]
pub struct ObjectRef {
    pub id: ObjectId,
    pub version: u64,
    pub digest: u64,
}

/// A gas coin owned by a sponsor, with its last known balance.
#[derive(Clone, Copy, Debug, PartialEq, Eq, Structural)]
pub struct GasCoin {
    pub owner: Address,
    pub object_ref: ObjectRef,
    pub balance: u64,
}

/// The error kinds the pool surfaces to its callers.
#[derive(Clone, Copy, Debug, PartialEq, Eq, Structural)]
pub enum GasPoolError {
    /// The sponsor's daily gas usage has reached its cap.
    CapExceeded,
    /// No subset of the available coins covers the requested budget.
    NoCapacity,
    /// The transaction's gas owner is not a registered sponsor.
    UnknownSponsor,
    /// The transaction uses the gas coin as an ordinary argument.
    GasCoinMisuse,
    /// The reservation has already expired or been consumed.
    ReservationExpired,
    /// The signer failed on every attempt.
    SignerFailed,
    /// Submission of the transaction failed on every attempt.
    ExecutionFailed,
}

/// The total balance of a sequence of coins.
pub open spec fn sum_balances(coins: Seq<GasCoin>) -> int
    decreases coins.len(),
{
    if coins.len() == 0 {
        0
    } else {
        sum_balances(coins.drop_last()) + coins.last().balance
    }
}

/// The object ids of a sequence of coins, in order.
pub open spec fn ids_of(coins: Seq<GasCoin>) -> Seq<ObjectId> {
    coins.map_values(|c: GasCoin| c.object_ref.id)
}

/// The object references of a sequence of coins, in order.
pub open spec fn refs_of(coins: Seq<GasCoin>) -> Seq<ObjectRef> {
    coins.map_values(|c: GasCoin| c.object_ref)
}

} // verus!
