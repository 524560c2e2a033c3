use crate::coin_store::{
    add_all, deadline, free_balance, free_count, keep, lemma_keep_all, reservation_made, selects,
    taken, CoinStore, Hold, Selector,
};
use crate::transaction::{check_transaction_validity, uses_gas_coin, GasData, TransactionData};
use crate::types::{
    refs_of, Address, GasCoin, GasPoolError, ObjectId, ObjectRef, ReservationId,
};
use crate::usage_cap::GasUsageCap;
use vstd::prelude::*;

verus! {

/// Budget of the transaction that a health check reserves for, in the
/// chain's smallest unit: a tenth of one whole token.
pub const HEALTH_CHECK_BUDGET: u64 = 100_000_000;

/// How long a health check holds its coins, in milliseconds.
pub const HEALTH_CHECK_DURATION_MS: u64 = 3000;

/// The reservation and execution front door of the pool: it owns the coin
/// store, the usage cap and the list of sponsor addresses it can sign for.
pub struct GasPool {
    pub store: CoinStore,
    pub cap: GasUsageCap,
    pub sponsors: Vec<Address>,
}

/// The sum of the balances of the coins that still exist; a coin that is
/// gone counts as zero.
pub open spec fn present_balance(latest: Seq<Option<GasCoin>>) -> int
    decreases latest.len(),
{
    if latest.len() == 0 {
        0
    } else {
        present_balance(latest.drop_last()) + match latest.last() {
            Some(c) => c.balance as int,
            None => 0,
        }
    }
}

/// The coins that still exist, in order.
pub open spec fn present_coins(latest: Seq<Option<GasCoin>>) -> Seq<GasCoin>
    decreases latest.len(),
{
    if latest.len() == 0 {
        Seq::empty()
    } else {
        match latest.last() {
            Some(c) => present_coins(latest.drop_last()).push(c),
            None => present_coins(latest.drop_last()),
        }
    }
}

/// The sum of the balances of the coins of `latest` that still exist,
/// saturated to the range of `u64`.
pub fn get_total_gas_coin_balance(latest: &Vec<Option<GasCoin>>) -> (r: u64)
    ensures
        r == if present_balance(latest@) > u64::MAX {
            u64::MAX as int
        } else {
            present_balance(latest@)
        },
{
    let mut total: u128 = 0;
    let mut i: usize = 0;
    while i < latest.len()
        invariant
            0 <= i <= latest@.len(),
            total == present_balance(latest@.take(i as int)),
            total <= u64::MAX,
        decreases latest@.len() - i,
    {
        assert(latest@.take(i + 1).drop_last() == latest@.take(i as int));
        if let Some(c) = latest[i] {
            total = total + c.balance as u128;
            if total > u64::MAX as u128 {
                proof {
                    lemma_present_balance_prefix(latest@, i + 1);
                }
                return u64::MAX;
            }
        }
        i += 1;
    }
    assert(latest@.take(i as int) == latest@);
    total as u64
}

proof fn lemma_present_balance_prefix(s: Seq<Option<GasCoin>>, k: int)
    requires
        0 <= k <= s.len(),
    ensures
        present_balance(s.take(k)) <= present_balance(s),
    decreases s.len(),
{
    if k < s.len() {
        lemma_present_balance_prefix(s.drop_last(), k);
        assert(s.drop_last().take(k) == s.take(k));
    } else {
        assert(s.take(k) == s);
    }
}

/// The coins of `latest` that still exist, in order.
pub fn surviving_coins(latest: &Vec<Option<GasCoin>>) -> (r: Vec<GasCoin>)
    ensures
        r@ == present_coins(latest@),
        r@.len() <= latest@.len(),
{
    let mut r: Vec<GasCoin> = Vec::new();
    let mut i: usize = 0;
    while i < latest.len()
        invariant
            0 <= i <= latest@.len(),
            r@ == present_coins(latest@.take(i as int)),
            r@.len() <= i,
        decreases latest@.len() - i,
    {
        assert(latest@.take(i + 1).drop_last() == latest@.take(i as int));
        if let Some(c) = latest[i] {
            r.push(c);
        }
        i += 1;
    }
    assert(latest@.take(i as int) == latest@);
    r
}

/// The single coin that remains after a successful transaction: the gas
/// object from the effects, owned by the sponsor, with the balance before
/// execution less the net gas usage. `None` when that difference is not a
/// valid balance.
pub fn gas_coin_after_success(
    sponsor: Address,
    gas_object: ObjectRef,
    pre_balance: u64,
    net_gas_usage: i64,
) -> (r: Option<GasCoin>)
    ensures
        r is Some <==> 0 <= pre_balance - net_gas_usage <= u64::MAX,
        r is Some ==> r->0 == (GasCoin {
            owner: sponsor,
            object_ref: gas_object,
            balance: (pre_balance - net_gas_usage) as u64,
        }),
{
    let b: i128 = pre_balance as i128 - net_gas_usage as i128;
    if b < 0 || b > u64::MAX as i128 {
        None
    } else {
        Some(GasCoin { owner: sponsor, object_ref: gas_object, balance: b as u64 })
    }
}

/// The parts of a successful transaction's effects that settle its gas:
/// the surviving gas object and the net gas usage.
#[derive(Clone, Copy, Debug, PartialEq, Eq, Structural)]
pub struct ExecutionEffects {
    pub gas_object: ObjectRef,
    pub net_gas_usage: i64,
}

/// What to return to the pool after a transaction paid with the sponsor's
/// coins was submitted: on success (`effects` holds the gas object and the
/// net gas usage) the single gas object, with the balance before execution
/// less the net gas usage; `None` when the coins must instead be looked up
/// on chain, because submission failed or that balance is not valid.
pub fn coins_to_release(sponsor: Address, effects: Option<ExecutionEffects>, pre_balance: u64) -> (r:
    Option<Vec<GasCoin>>)
    ensures
        r is Some <==> effects is Some && 0 <= pre_balance - effects->0.net_gas_usage <= u64::MAX,
        r is Some ==> r->0@ == seq![
            GasCoin {
                owner: sponsor,
                object_ref: effects->0.gas_object,
                balance: (pre_balance - effects->0.net_gas_usage) as u64,
            },
        ],
{
    match effects {
        Some(fx) => match gas_coin_after_success(
            sponsor,
            fx.gas_object,
            pre_balance,
            fx.net_gas_usage,
        ) {
            Some(coin) => {
                let v = vec![coin];
                assert(v@ =~= seq![coin]);
                Some(v)
            },
            None => None,
        },
        None => None,
    }
}

/// The transaction a health check signs: no commands, sent and paid for by
/// the sponsor with the given coins.
pub fn health_check_transaction(sponsor: Address, payment: Vec<ObjectRef>, budget: u64) -> (r:
    TransactionData)
    ensures
        r.sender == sponsor,
        r.commands@.len() == 0,
        r.gas_data.owner == sponsor,
        r.gas_data.payment@ == payment@,
        r.gas_data.budget == budget,
        r.gas_data.price == 0,
{
    TransactionData {
        sender: sponsor,
        commands: Vec::new(),
        gas_data: GasData { owner: sponsor, payment, budget, price: 0 },
    }
}

impl GasPool {
    pub open spec fn wf(&self) -> bool {
        &&& self.store.wf()
        &&& self.sponsors@.len() > 0
    }

    /// A pool with an empty store, signing for `sponsors`, whose usage cap
    /// allows `daily_cap` per window starting at `now_ms`.
    pub fn new(sponsors: Vec<Address>, daily_cap: u64, now_ms: u64) -> (r: GasPool)
        requires
            sponsors@.len() > 0,
        ensures
            r.wf(),
            r.store.entries@.len() == 0,
            r.sponsors@ == sponsors@,
            r.cap == GasUsageCap::new_spec(daily_cap, now_ms),
    {
        GasPool { store: CoinStore::new(), cap: GasUsageCap::new(daily_cap, now_ms), sponsors }
    }

    /// The sponsor addresses this pool signs for.
    pub fn support_address(&self) -> (r: Vec<Address>)
        ensures
            r@ == self.sponsors@,
    {
        let mut r: Vec<Address> = Vec::new();
        let mut i: usize = 0;
        while i < self.sponsors.len()
            invariant
                0 <= i <= self.sponsors@.len(),
                r@ == self.sponsors@.take(i as int),
            decreases self.sponsors@.len() - i,
        {
            r.push(self.sponsors[i]);
            i += 1;
            assert(r@ =~= self.sponsors@.take(i as int));
        }
        assert(self.sponsors@.take(i as int) == self.sponsors@);
        r
    }

    /// Whether `address` is one of the pool's sponsors.
    pub fn is_valid_address(&self, address: Address) -> (r: bool)
        ensures
            r == self.sponsors@.contains(address),
    {
        let mut i: usize = 0;
        while i < self.sponsors.len()
            invariant
                0 <= i <= self.sponsors@.len(),
                forall|k: int| 0 <= k < i ==> self.sponsors@[k] != address,
            decreases self.sponsors@.len() - i,
        {
            if self.sponsors[i] == address {
                return true;
            }
            i += 1;
        }
        false
    }

    /// The sponsor a request names, or else the pool's first sponsor.
    pub open spec fn sponsor_or_default(&self, sponsor: Option<Address>) -> Address {
        match sponsor {
            Some(a) => a,
            None => self.sponsors@[0],
        }
    }

    /// Reserves coins of `sponsor` (the pool's first sponsor when `None`)
    /// covering `gas_budget` for `duration_ms`, and returns the sponsor, the
    /// reservation id and the references of the reserved coins.
    /// Fails with `CapExceeded` when the usage cap is reached, else with
    /// `NoCapacity` when the sponsor's available coins cannot cover the
    /// budget; on failure the pool is unchanged.
    pub fn reserve_gas(
        &mut self,
        sponsor: Option<Address>,
        gas_budget: u64,
        duration_ms: u64,
        now_ms: u64,
    ) -> (r: Result<(Address, ReservationId, Vec<ObjectRef>), GasPoolError>)
        requires
            old(self).wf(),
        ensures
            final(self).wf(),
            final(self).cap == old(self).cap,
            final(self).sponsors@ == old(self).sponsors@,
            ({
                let s = old(self).sponsor_or_default(sponsor);
                let cap_ok = old(self).cap.usage_at(now_ms) < old(self).cap.daily_limit;
                let fits = free_balance(old(self).store.entries@, s) >= gas_budget
                    && old(self).store.next_id < u64::MAX;
                &&& !cap_ok ==> r == Err::<(Address, ReservationId, Vec<ObjectRef>), GasPoolError>(
                    GasPoolError::CapExceeded,
                )
                &&& cap_ok && !fits ==> r == Err::<
                    (Address, ReservationId, Vec<ObjectRef>),
                    GasPoolError,
                >(GasPoolError::NoCapacity)
                &&& r is Err ==> final(self).store.entries@ == old(self).store.entries@
                    && final(self).store.next_id == old(self).store.next_id
                &&& cap_ok && fits ==> r is Ok
                &&& r is Ok ==> {
                    let (a, rid, refs) = r->Ok_0;
                    &&& a == s
                    &&& rid == old(self).store.next_id
                    &&& final(self).store.next_id == rid + 1
                    &&& exists|coins: Seq<GasCoin>|
                        reservation_made(
                            old(self).store.entries@,
                            final(self).store.entries@,
                            s,
                            gas_budget,
                            Hold { reservation_id: rid, expiration_ms: deadline(now_ms, duration_ms) },
                            coins,
                        ) && refs@ == refs_of(coins)
                }
            }),
    {
        let sponsor = match sponsor {
            Some(a) => a,
            None => self.sponsors[0],
        };
        self.cap.check_usage(now_ms)?;
        let (rid, coins) = self.store.reserve_gas_coins(sponsor, gas_budget, duration_ms, now_ms)?;
        let mut refs: Vec<ObjectRef> = Vec::new();
        let mut i: usize = 0;
        while i < coins.len()
            invariant
                0 <= i <= coins@.len(),
                refs@ == refs_of(coins@.take(i as int)),
            decreases coins@.len() - i,
        {
            refs.push(coins[i].object_ref);
            i += 1;
            assert(refs@ =~= refs_of(coins@.take(i as int)));
        }
        assert(coins@.take(i as int) == coins@);
        Ok((sponsor, rid, refs))
    }

    /// Checks a transaction against reservation `reservation_id` and, if it
    /// passes, takes the reserved coins out of the store for execution; returns
    /// the ids of the transaction's payment coins.
    /// The gas owner must be a sponsor of the pool (`UnknownSponsor`), the
    /// gas coin may only pay gas (`GasCoinMisuse`), and the reservation must
    /// still hold coins of the sponsor (`ReservationExpired`); the store is
    /// unchanged on each of these errors.
    pub fn prepare_execution(&mut self, reservation_id: ReservationId, tx_data: &TransactionData) -> (r:
        Result<Vec<ObjectId>, GasPoolError>)
        requires
            old(self).wf(),
        ensures
            final(self).wf(),
            final(self).cap == old(self).cap,
            final(self).sponsors@ == old(self).sponsors@,
            final(self).store.next_id == old(self).store.next_id,
            ({
                let sponsor = tx_data.gas_data.owner;
                let sel = selects(Selector::Reservation(sponsor, reservation_id));
                let held = taken(old(self).store.entries@, sel).len() > 0;
                &&& !old(self).sponsors@.contains(sponsor) ==> r == Err::<Vec<ObjectId>, GasPoolError>(
                    GasPoolError::UnknownSponsor,
                )
                &&& old(self).sponsors@.contains(sponsor) && uses_gas_coin(tx_data.commands@) ==> r
                    == Err::<Vec<ObjectId>, GasPoolError>(GasPoolError::GasCoinMisuse)
                &&& old(self).sponsors@.contains(sponsor) && !uses_gas_coin(tx_data.commands@) && !held
                    ==> r == Err::<Vec<ObjectId>, GasPoolError>(GasPoolError::ReservationExpired)
                &&& r is Err ==> final(self).store.entries@ == old(self).store.entries@
                &&& r is Ok <==> old(self).sponsors@.contains(sponsor) && !uses_gas_coin(
                    tx_data.commands@,
                ) && held
                &&& r is Ok ==> final(self).store.entries@ == keep(old(self).store.entries@, sel)
                    && r->Ok_0@ == tx_data.gas_data.payment@.map_values(|o: ObjectRef| o.id)
            }),
    {
        let sponsor = tx_data.gas_data.owner;
        if !self.is_valid_address(sponsor) {
            return Err(GasPoolError::UnknownSponsor);
        }
        check_transaction_validity(tx_data)?;
        let mut payment: Vec<ObjectId> = Vec::new();
        let mut i: usize = 0;
        while i < tx_data.gas_data.payment.len()
            invariant
                0 <= i <= tx_data.gas_data.payment@.len(),
                payment@ == tx_data.gas_data.payment@.take(i as int).map_values(|o: ObjectRef| o.id),
            decreases tx_data.gas_data.payment@.len() - i,
        {
            payment.push(tx_data.gas_data.payment[i].id);
            i += 1;
            assert(payment@ =~= tx_data.gas_data.payment@.take(i as int).map_values(
                |o: ObjectRef| o.id,
            ));
        }
        assert(tx_data.gas_data.payment@.take(i as int) == tx_data.gas_data.payment@);
        let ready = self.store.ready_for_execution(sponsor, reservation_id);
        match ready {
            Ok(_) => Ok(payment),
            Err(e) => {
                proof {
                    lemma_keep_all(
                        old(self).store.entries@,
                        selects(Selector::Reservation(sponsor, reservation_id)),
                    );
                }
                Err(e)
            },
        }
    }

    /// Adds the net gas usage of an executed transaction to the usage cap at
    /// `now_ms`, and returns the usage of the current window.
    pub fn record_gas_usage(&mut self, net_gas_usage: i64, now_ms: u64) -> (r: i64)
        ensures
            final(self).store == old(self).store,
            final(self).sponsors == old(self).sponsors,
            final(self).cap == old(self).cap.updated(net_gas_usage, now_ms),
            r == final(self).cap.window_usage,
    {
        self.cap.update_usage(net_gas_usage, now_ms)
    }

    /// Returns coins to the pool's available set.
    pub fn release_gas_coins(&mut self, gas_coins: &Vec<GasCoin>)
        requires
            old(self).wf(),
        ensures
            final(self).wf(),
            final(self).cap == old(self).cap,
            final(self).sponsors@ == old(self).sponsors@,
            final(self).store.next_id == old(self).store.next_id,
            final(self).store.entries@ == add_all(old(self).store.entries@, gas_coins@),
    {
        self.store.add_new_coins(gas_coins);
    }

    /// Returns the coins that remain after executing a transaction paid with
    /// `payment_count` coins to the pool, and returns how many coins were
    /// merged away on chain.
    pub fn complete_execution(&mut self, payment_count: usize, survivors: &Vec<GasCoin>) -> (r: usize)
        requires
            old(self).wf(),
        ensures
            final(self).wf(),
            final(self).cap == old(self).cap,
            final(self).sponsors@ == old(self).sponsors@,
            final(self).store.next_id == old(self).store.next_id,
            final(self).store.entries@ == add_all(old(self).store.entries@, survivors@),
            r == if survivors@.len() <= payment_count {
                payment_count - survivors@.len()
            } else {
                0
            },
    {
        self.release_gas_coins(survivors);
        if survivors.len() <= payment_count {
            payment_count - survivors.len()
        } else {
            0
        }
    }

    /// Ends the reservations whose deadline has passed at `now_ms` and returns
    /// the ids of their coins, which must be looked up and released again.
    pub fn expire_coins(&mut self, now_ms: u64) -> (r: Vec<ObjectId>)
        requires
            old(self).wf(),
        ensures
            final(self).wf(),
            final(self).cap == old(self).cap,
            final(self).sponsors@ == old(self).sponsors@,
            final(self).store.next_id == old(self).store.next_id,
            final(self).store.entries@ == keep(
                old(self).store.entries@,
                selects(Selector::ExpiredAt(now_ms)),
            ),
            r@ == crate::types::ids_of(
                crate::coin_store::coins_of(
                    taken(old(self).store.entries@, selects(Selector::ExpiredAt(now_ms))),
                ),
            ),
    {
        self.store.expire_coins(now_ms)
    }

    /// Reserves a small budget for the first sponsor and builds the empty
    /// transaction that a health check has signed, without running it; it
    /// pays with exactly the reserved coins. Fails as `reserve_gas` does.
    pub fn debug_check_health(&mut self, now_ms: u64) -> (r: Result<TransactionData, GasPoolError>)
        requires
            old(self).wf(),
        ensures
            final(self).wf(),
            final(self).cap == old(self).cap,
            final(self).sponsors@ == old(self).sponsors@,
            ({
                let s = old(self).sponsors@[0];
                let cap_ok = old(self).cap.usage_at(now_ms) < old(self).cap.daily_limit;
                let fits = free_balance(old(self).store.entries@, s) >= HEALTH_CHECK_BUDGET
                    && old(self).store.next_id < u64::MAX;
                &&& !cap_ok ==> r == Err::<TransactionData, GasPoolError>(GasPoolError::CapExceeded)
                &&& cap_ok && !fits ==> r == Err::<TransactionData, GasPoolError>(
                    GasPoolError::NoCapacity,
                )
                &&& r is Err ==> final(self).store.entries@ == old(self).store.entries@
                    && final(self).store.next_id == old(self).store.next_id
                &&& r is Ok <==> cap_ok && fits
                &&& r is Ok ==> {
                    let t = r->Ok_0;
                    &&& t.commands@.len() == 0
                    &&& t.sender == s
                    &&& t.gas_data.owner == s
                    &&& t.gas_data.budget == HEALTH_CHECK_BUDGET
                    &&& t.gas_data.price == 0
                    &&& final(self).store.next_id == old(self).store.next_id + 1
                    &&& exists|coins: Seq<GasCoin>|
                        reservation_made(
                            old(self).store.entries@,
                            final(self).store.entries@,
                            s,
                            HEALTH_CHECK_BUDGET,
                            Hold {
                                reservation_id: old(self).store.next_id,
                                expiration_ms: deadline(now_ms, HEALTH_CHECK_DURATION_MS),
                            },
                            coins,
                        ) && t.gas_data.payment@ == refs_of(coins)
                }
            }),
    {
        let sponsor = self.sponsors[0];
        let (_address, _reservation_id, gas_coins) = self.reserve_gas(
            Some(sponsor),
            HEALTH_CHECK_BUDGET,
            HEALTH_CHECK_DURATION_MS,
            now_ms,
        )?;
        Ok(health_check_transaction(sponsor, gas_coins, HEALTH_CHECK_BUDGET))
    }

    /// The number of available coins of `sponsor`.
    pub fn query_pool_available_coin_count(&self, sponsor: Address) -> (r: usize)
        ensures
            r == free_count(self.store.entries@, sponsor),
    {
        self.store.available_coin_count(sponsor)
    }
}

} // verus!
