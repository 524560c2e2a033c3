use crate::types::{ids_of, sum_balances, Address, GasCoin, GasPoolError, ObjectId, ReservationId};
use vstd::prelude::*;

verus! {

/// A hold that a reservation places on a coin.
#[derive(Clone, Copy, Debug, PartialEq, Eq, Structural)]
pub struct Hold {
    pub reservation_id: ReservationId,
    pub expiration_ms: u64,
}

/// A coin of the store: available when `hold` is `None`, else reserved.
#[derive(Clone, Copy, Debug, PartialEq, Eq, Structural)]
pub struct CoinEntry {
    pub coin: GasCoin,
    pub hold: Option<Hold>,
}

/// An in-memory coin store: each known gas coin appears once, either
/// available or held by exactly one active reservation.
pub struct CoinStore {
    pub entries: Vec<CoinEntry>,
    pub next_id: ReservationId,
}

/// All coins held under one reservation id belong to one owner.
pub open spec fn same_owner_per_reservation(s: Seq<CoinEntry>) -> bool {
    forall|i: int, j: int|
        0 <= i < s.len() && 0 <= j < s.len() && (#[trigger] s[i]).hold is Some
            && (#[trigger] s[j]).hold is Some && s[i].hold->0.reservation_id
            == s[j].hold->0.reservation_id ==> s[i].coin.owner == s[j].coin.owner
}

/// The coins were taken largest first: their balances do not rise, every
/// coin short of the last one still fell short of the budget, and no
/// available coin of the sponsor left behind is larger than the last one.
pub open spec fn largest_first(
    s1: Seq<CoinEntry>,
    sponsor: Address,
    gas_budget: u64,
    coins: Seq<GasCoin>,
) -> bool {
    &&& forall|i: int, j: int|
        0 <= i < j < coins.len() ==> (#[trigger] coins[j]).balance <= (#[trigger] coins[i]).balance
    &&& forall|k: int| 0 <= k < coins.len() ==> sum_balances(#[trigger] coins.take(k)) < gas_budget
    &&& coins.len() > 0 ==> forall|i: int|
        0 <= i < s1.len() && is_free_of(#[trigger] s1[i], sponsor) ==> s1[i].coin.balance
            <= coins.last().balance
}

/// The object id of an entry's coin.
pub open spec fn id_of(e: CoinEntry) -> ObjectId {
    e.coin.object_ref.id
}

/// No object id appears twice in the store.
pub open spec fn distinct_ids(s: Seq<CoinEntry>) -> bool {
    forall|i: int, j: int|
        0 <= i < s.len() && 0 <= j < s.len() && i != j ==> id_of(s[i]) != id_of(s[j])
}

/// Whether an entry is an available coin of `sponsor`.
pub open spec fn is_free_of(e: CoinEntry, sponsor: Address) -> bool {
    e.hold is None && e.coin.owner == sponsor
}

/// How many coins of `sponsor` are available.
pub open spec fn free_count(s: Seq<CoinEntry>, sponsor: Address) -> nat
    decreases s.len(),
{
    if s.len() == 0 {
        0
    } else {
        free_count(s.drop_last(), sponsor) + if is_free_of(s.last(), sponsor) {
            1nat
        } else {
            0nat
        }
    }
}

/// The total balance of the available coins of `sponsor`.
pub open spec fn free_balance(s: Seq<CoinEntry>, sponsor: Address) -> nat
    decreases s.len(),
{
    if s.len() == 0 {
        0
    } else {
        free_balance(s.drop_last(), sponsor) + if is_free_of(s.last(), sponsor) {
            s.last().coin.balance as nat
        } else {
            0nat
        }
    }
}

/// The entries that `f` does not select, in order.
pub open spec fn keep(s: Seq<CoinEntry>, f: spec_fn(CoinEntry) -> bool) -> Seq<CoinEntry>
    decreases s.len(),
{
    if s.len() == 0 {
        s
    } else if f(s.last()) {
        keep(s.drop_last(), f)
    } else {
        keep(s.drop_last(), f).push(s.last())
    }
}

/// The entries that `f` selects, in order.
pub open spec fn taken(s: Seq<CoinEntry>, f: spec_fn(CoinEntry) -> bool) -> Seq<CoinEntry>
    decreases s.len(),
{
    if s.len() == 0 {
        s
    } else if f(s.last()) {
        taken(s.drop_last(), f).push(s.last())
    } else {
        taken(s.drop_last(), f)
    }
}

/// The coins that the coin `c` joins: an available coin of the same id is
/// replaced unless the stored one is newer; a reserved one is left alone; an unknown id
/// is appended as available.
pub open spec fn add_one(s: Seq<CoinEntry>, c: GasCoin) -> Seq<CoinEntry> {
    if exists|i: int| 0 <= i < s.len() && id_of(s[i]) == c.object_ref.id {
        let i = choose|i: int| 0 <= i < s.len() && id_of(s[i]) == c.object_ref.id;
        if s[i].hold is None && s[i].coin.object_ref.version <= c.object_ref.version {
            s.update(i, CoinEntry { coin: c, hold: None })
        } else {
            s
        }
    } else {
        s.push(CoinEntry { coin: c, hold: None })
    }
}

/// The store after adding each of `cs` in order.
pub open spec fn add_all(s: Seq<CoinEntry>, cs: Seq<GasCoin>) -> Seq<CoinEntry>
    decreases cs.len(),
{
    if cs.len() == 0 {
        s
    } else {
        add_one(add_all(s, cs.drop_last()), cs.last())
    }
}

/// Which reserved coins leave the store.
#[derive(Clone, Copy, Debug)]
pub enum Selector {
    /// The coins of `sponsor` held by one reservation.
    Reservation(Address, ReservationId),
    /// The coins whose hold ended at or before the instant.
    ExpiredAt(u64),
}

/// The entries that a selector picks out.
pub open spec fn selects(sel: Selector) -> spec_fn(CoinEntry) -> bool {
    |e: CoinEntry|
        match sel {
            Selector::Reservation(sponsor, rid) => e.hold is Some && e.hold->0.reservation_id
                == rid && e.coin.owner == sponsor,
            Selector::ExpiredAt(now) => e.hold is Some && e.hold->0.expiration_ms <= now,
        }
}

proof fn lemma_keep_taken_parts(s: Seq<CoinEntry>, f: spec_fn(CoinEntry) -> bool)
    ensures
        forall|i: int| 0 <= i < keep(s, f).len() ==> !f(#[trigger] keep(s, f)[i]) && s.contains(keep(s, f)[i]),
        forall|i: int| 0 <= i < taken(s, f).len() ==> f(#[trigger] taken(s, f)[i]) && s.contains(taken(s, f)[i]),
        keep(s, f).len() + taken(s, f).len() == s.len(),
    decreases s.len(),
{
    if s.len() > 0 {
        lemma_keep_taken_parts(s.drop_last(), f);
        let k = keep(s, f);
        let t = taken(s, f);
        assert forall|i: int| 0 <= i < k.len() implies !f(#[trigger] k[i]) && s.contains(k[i]) by {
            if i < keep(s.drop_last(), f).len() {
                assert(s.drop_last().contains(k[i]));
                let j = choose|j: int| 0 <= j < s.drop_last().len() && s.drop_last()[j] == k[i];
                assert(s[j] == k[i]);
            } else {
                assert(s[s.len() - 1] == k[i]);
            }
        }
        assert forall|i: int| 0 <= i < t.len() implies f(#[trigger] t[i]) && s.contains(t[i]) by {
            if i < taken(s.drop_last(), f).len() {
                assert(s.drop_last().contains(t[i]));
                let j = choose|j: int| 0 <= j < s.drop_last().len() && s.drop_last()[j] == t[i];
                assert(s[j] == t[i]);
            } else {
                assert(s[s.len() - 1] == t[i]);
            }
        }
    }
}

proof fn lemma_keep_preserves(s: Seq<CoinEntry>, f: spec_fn(CoinEntry) -> bool)
    requires
        distinct_ids(s),
    ensures
        distinct_ids(keep(s, f)),
        distinct_ids(taken(s, f)),
        forall|i: int, j: int|
            0 <= i < keep(s, f).len() && 0 <= j < taken(s, f).len()
                ==> id_of(keep(s, f)[i]) != id_of(taken(s, f)[j]),
    decreases s.len(),
{
    if s.len() > 0 {
        let p = s.drop_last();
        lemma_keep_preserves(p, f);
        lemma_keep_taken_parts(p, f);
        let x = s.last();
        assert forall|e: CoinEntry| p.contains(e) implies id_of(e) != id_of(x) by {
            let j = choose|j: int| 0 <= j < p.len() && p[j] == e;
            assert(s[j] == e);
        }
        let k = keep(p, f);
        let t = taken(p, f);
        assert forall|i: int| 0 <= i < k.len() implies id_of(#[trigger] k[i]) != id_of(x) by {
            assert(p.contains(k[i]));
        }
        assert forall|i: int| 0 <= i < t.len() implies id_of(#[trigger] t[i]) != id_of(x) by {
            assert(p.contains(t[i]));
        }
    }
}

/// The coins of a sequence of entries.
pub open spec fn coins_of(s: Seq<CoinEntry>) -> Seq<GasCoin> {
    s.map_values(|e: CoinEntry| e.coin)
}

fn coins_from(es: &Vec<CoinEntry>) -> (r: Vec<GasCoin>)
    ensures
        r@ == coins_of(es@),
{
    let mut r: Vec<GasCoin> = Vec::new();
    let mut i: usize = 0;
    while i < es.len()
        invariant
            0 <= i <= es@.len(),
            r@ == coins_of(es@.take(i as int)),
        decreases es@.len() - i,
    {
        r.push(es[i].coin);
        i += 1;
        assert(r@ =~= coins_of(es@.take(i as int)));
    }
    assert(es@.take(i as int) == es@);
    r
}

impl CoinStore {
    /// The store's invariant: distinct object ids, and every hold names a
    /// reservation id below the next one to be handed out.
    pub open spec fn wf(&self) -> bool {
        &&& distinct_ids(self.entries@)
        &&& forall|i: int|
            0 <= i < self.entries@.len() && (#[trigger] self.entries@[i]).hold is Some
                ==> self.entries@[i].hold->0.reservation_id < self.next_id
        &&& same_owner_per_reservation(self.entries@)
    }

    /// An empty store.
    pub fn new() -> (r: CoinStore)
        ensures
            r.wf(),
            r.entries@.len() == 0,
    {
        CoinStore { entries: Vec::new(), next_id: 0 }
    }

    /// The number of available coins of `sponsor`.
    pub fn available_coin_count(&self, sponsor: Address) -> (r: usize)
        ensures
            r == free_count(self.entries@, sponsor),
    {
        let mut n: usize = 0;
        let mut i: usize = 0;
        while i < self.entries.len()
            invariant
                0 <= i <= self.entries@.len(),
                n == free_count(self.entries@.take(i as int), sponsor),
                n <= i,
            decreases self.entries@.len() - i,
        {
            assert(self.entries@.take(i + 1).drop_last() == self.entries@.take(i as int));
            let e = self.entries[i];
            if e.hold.is_none() && e.coin.owner == sponsor {
                n += 1;
            }
            i += 1;
        }
        assert(self.entries@.take(i as int) == self.entries@);
        n
    }

    fn find_id(&self, id: ObjectId) -> (r: Option<usize>)
        ensures
            r is Some ==> r->0 < self.entries@.len() && id_of(self.entries@[r->0 as int]) == id,
            r is None ==> forall|i: int| 0 <= i < self.entries@.len() ==> id_of(self.entries@[i]) != id,
    {
        let mut i: usize = 0;
        while i < self.entries.len()
            invariant
                0 <= i <= self.entries@.len(),
                forall|k: int| 0 <= k < i ==> id_of(self.entries@[k]) != id,
            decreases self.entries@.len() - i,
        {
            if self.entries[i].coin.object_ref.id == id {
                return Some(i);
            }
            i += 1;
        }
        None
    }

    fn add_coin(&mut self, c: GasCoin)
        requires
            old(self).wf(),
        ensures
            final(self).wf(),
            final(self).next_id == old(self).next_id,
            final(self).entries@ == add_one(old(self).entries@, c),
    {
        match self.find_id(c.object_ref.id) {
            Some(i) => {
                let e = self.entries[i];
                proof {
                    let s = self.entries@;
                    let j = choose|j: int| 0 <= j < s.len() && id_of(s[j]) == c.object_ref.id;
                    assert(j == i);
                }
                if e.hold.is_none() && e.coin.object_ref.version <= c.object_ref.version {
                    self.entries.set(i, CoinEntry { coin: c, hold: None });
                }
            },
            None => {
                self.entries.push(CoinEntry { coin: c, hold: None });
            },
        }
    }

    fn select(&self, sel: Selector, e: CoinEntry) -> (r: bool)
        ensures
            r == selects(sel)(e),
    {
        match e.hold {
            None => false,
            Some(h) => match sel {
                Selector::Reservation(sponsor, rid) => h.reservation_id == rid && e.coin.owner == sponsor,
                Selector::ExpiredAt(now) => h.expiration_ms <= now,
            },
        }
    }

    /// Removes the entries that `sel` selects and returns them, in order.
    fn split_off(&mut self, sel: Selector) -> (r: Vec<CoinEntry>)
        requires
            old(self).wf(),
        ensures
            final(self).wf(),
            final(self).next_id == old(self).next_id,
            final(self).entries@ == keep(old(self).entries@, selects(sel)),
            r@ == taken(old(self).entries@, selects(sel)),
    {
        let ghost s = self.entries@;
        let f = Ghost(selects(sel));
        let mut kept: Vec<CoinEntry> = Vec::new();
        let mut out: Vec<CoinEntry> = Vec::new();
        let mut i: usize = 0;
        while i < self.entries.len()
            invariant
                0 <= i <= s.len(),
                self.entries@ == s,
                kept@ == keep(s.take(i as int), f@),
                out@ == taken(s.take(i as int), f@),
                f@ == selects(sel),
            decreases s.len() - i,
        {
            assert(s.take(i + 1).drop_last() == s.take(i as int));
            let e = self.entries[i];
            if self.select(sel, e) {
                out.push(e);
            } else {
                kept.push(e);
            }
            i += 1;
        }
        assert(s.take(i as int) == s);
        proof {
            lemma_keep_taken_parts(s, f@);
            lemma_keep_preserves(s, f@);
        }
        self.entries = kept;
        out
    }

    /// Marks reservation `reservation_id` of `sponsor` as ready to run: its
    /// coins leave the store, into the caller's custody, and no sweep can
    /// reclaim them any more. Fails when no coin is held under that
    /// reservation: it has expired or was already consumed.
    pub fn ready_for_execution(&mut self, sponsor: Address, reservation_id: ReservationId) -> (r:
        Result<Vec<GasCoin>, GasPoolError>)
        requires
            old(self).wf(),
        ensures
            final(self).wf(),
            final(self).next_id == old(self).next_id,
            final(self).entries@ == keep(
                old(self).entries@,
                selects(Selector::Reservation(sponsor, reservation_id)),
            ),
            r is Ok <==> taken(
                old(self).entries@,
                selects(Selector::Reservation(sponsor, reservation_id)),
            ).len() > 0,
            r is Ok ==> r->Ok_0@ == coins_of(
                taken(old(self).entries@, selects(Selector::Reservation(sponsor, reservation_id))),
            ),
            r is Err ==> r == Err::<Vec<GasCoin>, GasPoolError>(GasPoolError::ReservationExpired),
    {
        let out = self.split_off(Selector::Reservation(sponsor, reservation_id));
        if out.len() == 0 {
            return Err(GasPoolError::ReservationExpired);
        }
        let coins = coins_from(&out);
        Ok(coins)
    }

    /// Ends every reservation whose deadline is at or before `now_ms`: its
    /// coins leave the store and their ids are returned, to be looked up on
    /// chain and added back.
    pub fn expire_coins(&mut self, now_ms: u64) -> (r: Vec<ObjectId>)
        requires
            old(self).wf(),
        ensures
            final(self).wf(),
            final(self).next_id == old(self).next_id,
            final(self).entries@ == keep(old(self).entries@, selects(Selector::ExpiredAt(now_ms))),
            r@ == ids_of(coins_of(taken(old(self).entries@, selects(Selector::ExpiredAt(now_ms))))),
    {
        let out = self.split_off(Selector::ExpiredAt(now_ms));
        let coins = coins_from(&out);
        let mut ids: Vec<ObjectId> = Vec::new();
        let mut i: usize = 0;
        while i < coins.len()
            invariant
                0 <= i <= coins@.len(),
                ids@ == ids_of(coins@.take(i as int)),
            decreases coins@.len() - i,
        {
            ids.push(coins[i].object_ref.id);
            i += 1;
            assert(ids@ =~= ids_of(coins@.take(i as int)));
        }
        assert(coins@.take(i as int) == coins@);
        ids
    }

    fn has_capacity(&self, sponsor: Address, gas_budget: u64) -> (r: bool)
        ensures
            r == (free_balance(self.entries@, sponsor) >= gas_budget),
    {
        if gas_budget == 0 {
            return true;
        }
        let mut acc: u128 = 0;
        let mut i: usize = 0;
        while i < self.entries.len()
            invariant
                0 <= i <= self.entries@.len(),
                acc == free_balance(self.entries@.take(i as int), sponsor),
                acc < gas_budget,
            decreases self.entries@.len() - i,
        {
            assert(self.entries@.take(i + 1).drop_last() == self.entries@.take(i as int));
            let e = self.entries[i];
            if e.hold.is_none() && e.coin.owner == sponsor {
                acc = acc + e.coin.balance as u128;
            }
            i += 1;
            if acc >= gas_budget as u128 {
                proof {
                    lemma_prefix_balance(self.entries@, i as int, sponsor);
                }
                return true;
            }
        }
        assert(self.entries@.take(i as int) == self.entries@);
        false
    }

    /// The available coin of `sponsor` with the largest balance, if any.
    fn largest_free(&self, sponsor: Address) -> (r: Option<usize>)
        ensures
            r is Some ==> r->0 < self.entries@.len() && is_free_of(self.entries@[r->0 as int], sponsor)
                && forall|j: int|
                0 <= j < self.entries@.len() && is_free_of(#[trigger] self.entries@[j], sponsor)
                    ==> self.entries@[j].coin.balance <= self.entries@[r->0 as int].coin.balance,
            r is None ==> forall|j: int|
                0 <= j < self.entries@.len() ==> !is_free_of(#[trigger] self.entries@[j], sponsor),
    {
        let mut best: Option<usize> = None;
        let mut i: usize = 0;
        while i < self.entries.len()
            invariant
                0 <= i <= self.entries@.len(),
                best is Some ==> best->0 < i && is_free_of(self.entries@[best->0 as int], sponsor)
                    && forall|j: int|
                    0 <= j < i && is_free_of(#[trigger] self.entries@[j], sponsor)
                        ==> self.entries@[j].coin.balance <= self.entries@[best->0 as int].coin.balance,
                best is None ==> forall|j: int|
                    0 <= j < i ==> !is_free_of(#[trigger] self.entries@[j], sponsor),
            decreases self.entries@.len() - i,
        {
            let e = self.entries[i];
            if e.hold.is_none() && e.coin.owner == sponsor {
                match best {
                    None => {
                        best = Some(i);
                    },
                    Some(b) => {
                        if self.entries[b].coin.balance < e.coin.balance {
                            best = Some(i);
                        }
                    },
                }
            }
            i += 1;
        }
        best
    }

    /// Reserves available coins of `sponsor` whose balances add up to at
    /// least `gas_budget`, largest first, until `now_ms + duration_ms`.
    /// Succeeds exactly when the sponsor's available balance covers the
    /// budget (and a reservation id is left to hand out); otherwise the store
    /// is unchanged and the error is `NoCapacity`.
    pub fn reserve_gas_coins(
        &mut self,
        sponsor: Address,
        gas_budget: u64,
        duration_ms: u64,
        now_ms: u64,
    ) -> (r: Result<(ReservationId, Vec<GasCoin>), GasPoolError>)
        requires
            old(self).wf(),
        ensures
            final(self).wf(),
            r is Ok <==> (free_balance(old(self).entries@, sponsor) >= gas_budget && old(self).next_id
                < u64::MAX),
            r is Err ==> r == Err::<(ReservationId, Vec<GasCoin>), GasPoolError>(
                GasPoolError::NoCapacity,
            ) && final(self).entries@ == old(self).entries@ && final(self).next_id == old(self).next_id,
            r is Ok ==> ({
                let (rid, coins) = r->Ok_0;
                &&& rid == old(self).next_id
                &&& final(self).next_id == old(self).next_id + 1
                &&& reservation_made(
                    old(self).entries@,
                    final(self).entries@,
                    sponsor,
                    gas_budget,
                    Hold { reservation_id: rid, expiration_ms: deadline(now_ms, duration_ms) },
                    coins@,
                )
            }),
    {
        if self.next_id == u64::MAX || !self.has_capacity(sponsor, gas_budget) {
            return Err(GasPoolError::NoCapacity);
        }
        let rid = self.next_id;
        let expiration_ms = if duration_ms > u64::MAX - now_ms {
            u64::MAX
        } else {
            now_ms + duration_ms
        };
        let hold = Hold { reservation_id: rid, expiration_ms };
        let ghost orig = self.entries@;
        let mut coins: Vec<GasCoin> = Vec::new();
        let mut sum: u128 = 0;
        while sum < gas_budget as u128
            invariant
                self.next_id == rid,
                rid < u64::MAX,
                hold == (Hold { reservation_id: rid, expiration_ms: deadline(now_ms, duration_ms) }),
                self.entries@.len() == orig.len(),
                distinct_ids(orig),
                forall|i: int|
                    0 <= i < orig.len() && (#[trigger] orig[i]).hold is Some
                        ==> orig[i].hold->0.reservation_id < rid,
                free_balance(orig, sponsor) >= gas_budget,
                same_owner_per_reservation(orig),
                sum == sum_balances(coins@),
                forall|a: int, b: int|
                    0 <= a < coins@.len() && 0 <= b < coins@.len() && a != b
                        ==> (#[trigger] coins@[a]).object_ref.id != (#[trigger] coins@[b]).object_ref.id,
                forall|a: int, b: int|
                    0 <= a < b < coins@.len() ==> (#[trigger] coins@[b]).balance <= (#[trigger] coins@[a]).balance,
                forall|k: int| 0 <= k < coins@.len() ==> sum_balances(#[trigger] coins@.take(k)) < gas_budget,
                coins@.len() > 0 ==> forall|j: int|
                    0 <= j < self.entries@.len() && is_free_of(#[trigger] self.entries@[j], sponsor)
                        ==> self.entries@[j].coin.balance <= coins@.last().balance,
                free_balance(self.entries@, sponsor) + sum == free_balance(orig, sponsor),
                free_count(self.entries@, sponsor) + coins@.len() == free_count(orig, sponsor),
                forall|i: int|
                    0 <= i < self.entries@.len() ==> {
                        let e = #[trigger] self.entries@[i];
                        let o = orig[i];
                        &&& e.coin == o.coin
                        &&& e == o || (is_free_of(o, sponsor) && e.hold == Some(hold))
                        &&& e.hold == Some(hold) <==> coins@.contains(e.coin)
                    },
                forall|c: GasCoin| #[trigger] coins@.contains(c) ==> exists|i: int|
                    0 <= i < self.entries@.len() && self.entries@[i].coin == c,
            decreases free_count(self.entries@, sponsor),
        {
            match self.largest_free(sponsor) {
                None => {
                    proof {
                        lemma_none_free(self.entries@, sponsor);
                    }
                    assert(false);
                },
                Some(i) => {
                    let e = self.entries[i];
                    let ghost before = self.entries@;
                    let ghost old_coins = coins@;
                    proof {
                        lemma_mark(before, i as int, CoinEntry { coin: e.coin, hold: Some(hold) }, sponsor);
                        assert(!old_coins.contains(e.coin));
                    }
                    self.entries.set(i, CoinEntry { coin: e.coin, hold: Some(hold) });
                    coins.push(e.coin);
                    sum = sum + e.coin.balance as u128;
                    proof {
                        assert(coins@.drop_last() == old_coins);
                        assert(is_free_of(before[i as int], sponsor));
                        assert forall|a: int, b: int|
                            0 <= a < coins@.len() && 0 <= b < coins@.len() && a != b
                                implies (#[trigger] coins@[a]).object_ref.id
                                != (#[trigger] coins@[b]).object_ref.id by {
                            if a < old_coins.len() && b < old_coins.len() {
                                assert(coins@[a] == old_coins[a] && coins@[b] == old_coins[b]);
                            } else {
                                let x = if a < old_coins.len() { a } else { b };
                                assert(coins@[x] == old_coins[x]);
                                assert(old_coins.contains(old_coins[x]));
                                let j = choose|j: int| 0 <= j < before.len() && before[j].coin == old_coins[x];
                                assert(before[j].hold == Some(hold));
                                assert(j != i);
                                assert(before[j].coin == orig[j].coin);
                                assert(before[i as int].coin == orig[i as int].coin);
                                assert(id_of(orig[j]) != id_of(orig[i as int]));
                            }
                        }
                        if old_coins.len() > 0 {
                            assert(e.coin.balance <= old_coins.last().balance);
                        }
                        assert forall|a: int, b: int|
                            0 <= a < b < coins@.len() implies (#[trigger] coins@[b]).balance
                                <= (#[trigger] coins@[a]).balance by {
                            if b < old_coins.len() {
                                assert(coins@[a] == old_coins[a] && coins@[b] == old_coins[b]);
                            } else {
                                assert(coins@[a] == old_coins[a]);
                                assert(old_coins[a].balance >= old_coins.last().balance) by {
                                    if a < old_coins.len() - 1 {
                                        assert(old_coins[old_coins.len() - 1] == old_coins.last());
                                    }
                                }
                            }
                        }
                        assert forall|k: int| 0 <= k < coins@.len() implies sum_balances(
                            #[trigger] coins@.take(k),
                        ) < gas_budget by {
                            if k < old_coins.len() {
                                assert(coins@.take(k) == old_coins.take(k));
                            } else {
                                assert(coins@.take(k) == old_coins);
                            }
                        }
                        assert forall|j: int|
                            0 <= j < self.entries@.len() && is_free_of(#[trigger] self.entries@[j], sponsor)
                                implies self.entries@[j].coin.balance <= coins@.last().balance by {
                            assert(j != i);
                            assert(self.entries@[j] == before[j]);
                        }
                        assert forall|j: int| 0 <= j < self.entries@.len() implies {
                            let x = #[trigger] self.entries@[j];
                            x.hold == Some(hold) <==> coins@.contains(x.coin)
                        } by {
                            let x = self.entries@[j];
                            if j != i {
                                assert(id_of(orig[j]) != id_of(orig[i as int]));
                                assert(x.coin != e.coin);
                                if old_coins.contains(x.coin) {
                                    let k = choose|k: int| 0 <= k < old_coins.len() && old_coins[k] == x.coin;
                                    assert(coins@[k] == x.coin);
                                }
                                if coins@.contains(x.coin) {
                                    let k = choose|k: int| 0 <= k < coins@.len() && coins@[k] == x.coin;
                                    assert(k < old_coins.len());
                                    assert(old_coins[k] == x.coin);
                                }
                            } else {
                                assert(coins@[coins@.len() - 1] == e.coin);
                            }
                        }
                        assert forall|c: GasCoin| #[trigger] coins@.contains(c) implies exists|j: int|
                            0 <= j < self.entries@.len() && self.entries@[j].coin == c by {
                            let k = choose|k: int| 0 <= k < coins@.len() && coins@[k] == c;
                            if k < old_coins.len() {
                                assert(old_coins[k] == c);
                                assert(old_coins.contains(c));
                                let j = choose|j: int| 0 <= j < before.len() && before[j].coin == c;
                                assert(self.entries@[j].coin == c);
                            } else {
                                assert(self.entries@[i as int].coin == c);
                            }
                        }
                    }
                },
            }
        }
        self.next_id = rid + 1;
        proof {
            assert forall|i: int|
                0 <= i < self.entries@.len() && (#[trigger] self.entries@[i]).hold is Some
                    implies self.entries@[i].hold->0.reservation_id < self.next_id by {
                assert(orig[i] == self.entries@[i] || self.entries@[i].hold == Some(hold));
            }
            assert forall|i: int, j: int|
                0 <= i < self.entries@.len() && 0 <= j < self.entries@.len() && i != j
                    implies id_of(self.entries@[i]) != id_of(self.entries@[j]) by {
                assert(self.entries@[i].coin == orig[i].coin);
                assert(self.entries@[j].coin == orig[j].coin);
            }
            let t = self.entries@;
            assert forall|i: int, j: int|
                0 <= i < t.len() && 0 <= j < t.len() && (#[trigger] t[i]).hold is Some
                    && (#[trigger] t[j]).hold is Some && t[i].hold->0.reservation_id
                    == t[j].hold->0.reservation_id implies t[i].coin.owner == t[j].coin.owner by {
                assert(orig[i] == t[i] || t[i].hold == Some(hold));
                assert(orig[j] == t[j] || t[j].hold == Some(hold));
                assert(t[i].coin == orig[i].coin && t[j].coin == orig[j].coin);
            }
        }
        Ok((rid, coins))
    }

    /// Returns coins to the available set; adding the same coin again changes nothing.
    pub fn add_new_coins(&mut self, coins: &Vec<GasCoin>)
        requires
            old(self).wf(),
        ensures
            final(self).wf(),
            final(self).next_id == old(self).next_id,
            final(self).entries@ == add_all(old(self).entries@, coins@),
    {
        let mut k: usize = 0;
        while k < coins.len()
            invariant
                0 <= k <= coins@.len(),
                self.wf(),
                self.next_id == old(self).next_id,
                self.entries@ == add_all(old(self).entries@, coins@.take(k as int)),
            decreases coins@.len() - k,
        {
            assert(coins@.take(k + 1).drop_last() == coins@.take(k as int));
            self.add_coin(coins[k]);
            k += 1;
        }
        assert(coins@.take(k as int) == coins@);
    }
}

proof fn lemma_membership(s: Seq<CoinEntry>, f: spec_fn(CoinEntry) -> bool)
    ensures
        forall|e: CoinEntry| #[trigger] taken(s, f).contains(e) <==> (s.contains(e) && f(e)),
        forall|e: CoinEntry| #[trigger] keep(s, f).contains(e) <==> (s.contains(e) && !f(e)),
    decreases s.len(),
{
    if s.len() > 0 {
        let p = s.drop_last();
        lemma_membership(p, f);
        assert(s == p.push(s.last()));
        assert forall|e: CoinEntry| #[trigger] s.contains(e) <==> (p.contains(e) || e == s.last()) by {
            if s.contains(e) {
                let j = choose|j: int| 0 <= j < s.len() && s[j] == e;
                if j < p.len() {
                    assert(p[j] == e);
                }
            }
            if p.contains(e) {
                let j = choose|j: int| 0 <= j < p.len() && p[j] == e;
                assert(s[j] == e);
            }
            if e == s.last() {
                assert(s[s.len() - 1] == e);
            }
        }
        let t = taken(p, f);
        let k = keep(p, f);
        assert forall|e: CoinEntry| #[trigger] t.push(s.last()).contains(e) <==> (t.contains(e) || e == s.last()) by {
            let tp = t.push(s.last());
            if tp.contains(e) {
                let j = choose|j: int| 0 <= j < tp.len() && tp[j] == e;
                if j < t.len() {
                    assert(t[j] == e);
                }
            }
            if t.contains(e) {
                let j = choose|j: int| 0 <= j < t.len() && t[j] == e;
                assert(tp[j] == e);
            }
            if e == s.last() {
                assert(tp[t.len() as int] == e);
            }
        }
        assert forall|e: CoinEntry| #[trigger] k.push(s.last()).contains(e) <==> (k.contains(e) || e == s.last()) by {
            let kp = k.push(s.last());
            if kp.contains(e) {
                let j = choose|j: int| 0 <= j < kp.len() && kp[j] == e;
                if j < k.len() {
                    assert(k[j] == e);
                }
            }
            if k.contains(e) {
                let j = choose|j: int| 0 <= j < k.len() && k[j] == e;
                assert(kp[j] == e);
            }
            if e == s.last() {
                assert(kp[k.len() as int] == e);
            }
        }
    }
}

proof fn lemma_ids_contains(t: Seq<CoinEntry>, x: ObjectId)
    ensures
        ids_of(coins_of(t)).contains(x) <==> exists|e: CoinEntry| t.contains(e) && id_of(e) == x,
{
    let ids = ids_of(coins_of(t));
    assert(ids.len() == t.len());
    if ids.contains(x) {
        let j = choose|j: int| 0 <= j < ids.len() && ids[j] == x;
        assert(ids[j] == id_of(t[j]));
        assert(t.contains(t[j]) && id_of(t[j]) == x);
    }
    if exists|e: CoinEntry| t.contains(e) && id_of(e) == x {
        let e = choose|e: CoinEntry| t.contains(e) && id_of(e) == x;
        let j = choose|j: int| 0 <= j < t.len() && t[j] == e;
        assert(ids[j] == x);
        assert(ids.contains(x));
    }
}

/// Two sweeps, at `now1` and then at `now2 >= now1`, hand back disjoint sets
/// of ids whose union is what a single sweep at `now2` would have handed back.
pub proof fn lemma_two_sweeps(s: Seq<CoinEntry>, now1: u64, now2: u64)
    requires
        distinct_ids(s),
        now1 <= now2,
    ensures
        ({
            let first = ids_of(coins_of(taken(s, selects(Selector::ExpiredAt(now1)))));
            let rest = keep(s, selects(Selector::ExpiredAt(now1)));
            let second = ids_of(coins_of(taken(rest, selects(Selector::ExpiredAt(now2)))));
            let all = ids_of(coins_of(taken(s, selects(Selector::ExpiredAt(now2)))));
            &&& forall|i: int, j: int|
                0 <= i < first.len() && 0 <= j < second.len() ==> first[i] != second[j]
            &&& first.to_set().union(second.to_set()) == all.to_set()
        }),
{
    let f1 = selects(Selector::ExpiredAt(now1));
    let f2 = selects(Selector::ExpiredAt(now2));
    let rest = keep(s, f1);
    let t1 = taken(s, f1);
    let t2 = taken(rest, f2);
    let ta = taken(s, f2);
    lemma_membership(s, f1);
    lemma_membership(s, f2);
    lemma_membership(rest, f2);
    lemma_keep_preserves(s, f1);
    lemma_keep_taken_parts(rest, f2);
    let first = ids_of(coins_of(t1));
    let second = ids_of(coins_of(t2));
    let all = ids_of(coins_of(ta));
    assert forall|i: int, j: int| 0 <= i < first.len() && 0 <= j < second.len() implies first[i] != second[j] by {
        assert(first[i] == id_of(t1[i]));
        assert(second[j] == id_of(t2[j]));
        assert(rest.contains(t2[j]));
        let k = choose|k: int| 0 <= k < rest.len() && rest[k] == t2[j];
    }
    assert forall|x: ObjectId| first.to_set().union(second.to_set()).contains(x) <==> all.to_set().contains(x) by {
        lemma_ids_contains(t1, x);
        lemma_ids_contains(t2, x);
        lemma_ids_contains(ta, x);
        if all.contains(x) {
            let e = choose|e: CoinEntry| ta.contains(e) && id_of(e) == x;
            if f1(e) {
                assert(t1.contains(e));
            } else {
                assert(t2.contains(e));
            }
        }
        if first.contains(x) {
            let e = choose|e: CoinEntry| t1.contains(e) && id_of(e) == x;
            assert(ta.contains(e));
        }
        if second.contains(x) {
            let e = choose|e: CoinEntry| t2.contains(e) && id_of(e) == x;
            assert(ta.contains(e));
        }
    }
    assert(first.to_set().union(second.to_set()) =~= all.to_set());
}

proof fn lemma_add_one_distinct(s: Seq<CoinEntry>, c: GasCoin)
    requires
        distinct_ids(s),
    ensures
        distinct_ids(add_one(s, c)),
{
    if exists|i: int| 0 <= i < s.len() && id_of(s[i]) == c.object_ref.id {
    } else {
        let t = add_one(s, c);
        assert forall|i: int, j: int| 0 <= i < t.len() && 0 <= j < t.len() && i != j implies id_of(t[i]) != id_of(t[j]) by {
            if i < s.len() && j < s.len() {
                assert(t[i] == s[i] && t[j] == s[j]);
            }
        }
    }
}

/// The store already accounts for `c`: its id is there, and the entry is
/// held, newer, or exactly `c` and available.
pub open spec fn absorbed(t: Seq<CoinEntry>, c: GasCoin) -> bool {
    exists|i: int|
        0 <= i < t.len() && id_of(t[i]) == c.object_ref.id && (t[i].hold is Some
            || t[i].coin.object_ref.version > c.object_ref.version || t[i].coin == c)
}

proof fn lemma_add_all_distinct(s: Seq<CoinEntry>, cs: Seq<GasCoin>)
    requires
        distinct_ids(s),
    ensures
        distinct_ids(add_all(s, cs)),
    decreases cs.len(),
{
    if cs.len() > 0 {
        lemma_add_all_distinct(s, cs.drop_last());
        lemma_add_one_distinct(add_all(s, cs.drop_last()), cs.last());
    }
}

proof fn lemma_add_one_absorbs(t: Seq<CoinEntry>, c: GasCoin, d: GasCoin)
    requires
        distinct_ids(t),
        absorbed(t, d) || d == c,
        d == c || d.object_ref.id != c.object_ref.id,
    ensures
        absorbed(add_one(t, c), d),
{
    let u = add_one(t, c);
    if exists|i: int| 0 <= i < t.len() && id_of(t[i]) == c.object_ref.id {
        let j = choose|i: int| 0 <= i < t.len() && id_of(t[i]) == c.object_ref.id;
        if d == c {
            assert(id_of(u[j]) == c.object_ref.id);
        } else {
            let i = choose|i: int|
                0 <= i < t.len() && id_of(t[i]) == d.object_ref.id && (t[i].hold is Some
                    || t[i].coin.object_ref.version > d.object_ref.version || t[i].coin == d);
            assert(i != j);
            assert(u[i] == t[i]);
        }
    } else {
        if d == c {
            assert(u[t.len() as int].coin == c);
        } else {
            let i = choose|i: int|
                0 <= i < t.len() && id_of(t[i]) == d.object_ref.id && (t[i].hold is Some
                    || t[i].coin.object_ref.version > d.object_ref.version || t[i].coin == d);
            assert(u[i] == t[i]);
        }
    }
}

proof fn lemma_all_absorbed(s: Seq<CoinEntry>, cs: Seq<GasCoin>)
    requires
        distinct_ids(s),
        forall|a: int, b: int|
            0 <= a < cs.len() && 0 <= b < cs.len() && a != b ==> (#[trigger] cs[a]).object_ref.id
                != (#[trigger] cs[b]).object_ref.id,
    ensures
        forall|k: int| 0 <= k < cs.len() ==> absorbed(add_all(s, cs), #[trigger] cs[k]),
    decreases cs.len(),
{
    if cs.len() > 0 {
        let p = cs.drop_last();
        lemma_all_absorbed(s, p);
        lemma_add_all_distinct(s, p);
        let t = add_all(s, p);
        assert forall|k: int| 0 <= k < cs.len() implies absorbed(add_all(s, cs), #[trigger] cs[k]) by {
            if k < p.len() {
                assert(cs[k] == p[k]);
                assert(cs[k] != cs.last()) by {
                    assert(cs[k].object_ref.id != cs[cs.len() - 1].object_ref.id);
                }
                lemma_add_one_absorbs(t, cs.last(), cs[k]);
            } else {
                lemma_add_one_absorbs(t, cs.last(), cs[k]);
            }
        }
    }
}

proof fn lemma_absorbed_no_op(t: Seq<CoinEntry>, cs: Seq<GasCoin>)
    requires
        distinct_ids(t),
        forall|k: int| 0 <= k < cs.len() ==> absorbed(t, #[trigger] cs[k]),
    ensures
        add_all(t, cs) == t,
    decreases cs.len(),
{
    if cs.len() > 0 {
        let p = cs.drop_last();
        assert forall|k: int| 0 <= k < p.len() implies absorbed(t, #[trigger] p[k]) by {
            assert(p[k] == cs[k]);
        }
        lemma_absorbed_no_op(t, p);
        let c = cs.last();
        assert(absorbed(t, cs[cs.len() - 1]));
        let i = choose|i: int|
            0 <= i < t.len() && id_of(t[i]) == c.object_ref.id && (t[i].hold is Some
                || t[i].coin.object_ref.version > c.object_ref.version || t[i].coin == c);
        let j = choose|j: int| 0 <= j < t.len() && id_of(t[j]) == c.object_ref.id;
        assert(i == j);
        assert(add_one(t, c) =~= t);
    }
}

/// Releasing the same coins a second time, no two of them with the same
/// object id, leaves the store as the first release left it.
pub proof fn lemma_add_all_idempotent(s: Seq<CoinEntry>, cs: Seq<GasCoin>)
    requires
        distinct_ids(s),
        forall|a: int, b: int|
            0 <= a < cs.len() && 0 <= b < cs.len() && a != b ==> (#[trigger] cs[a]).object_ref.id
                != (#[trigger] cs[b]).object_ref.id,
    ensures
        add_all(add_all(s, cs), cs) == add_all(s, cs),
{
    lemma_all_absorbed(s, cs);
    lemma_add_all_distinct(s, cs);
    lemma_absorbed_no_op(add_all(s, cs), cs);
}

/// Whether `x` is the id of an entry of `s` or of a coin of `cs`.
pub open spec fn id_known(s: Seq<CoinEntry>, cs: Seq<GasCoin>, x: ObjectId) -> bool {
    (exists|j: int| 0 <= j < s.len() && id_of(s[j]) == x) || (exists|k: int|
        0 <= k < cs.len() && cs[k].object_ref.id == x)
}

proof fn lemma_add_all_ids(s: Seq<CoinEntry>, cs: Seq<GasCoin>)
    ensures
        forall|i: int|
            0 <= i < add_all(s, cs).len() ==> id_known(s, cs, id_of(#[trigger] add_all(s, cs)[i])),
    decreases cs.len(),
{
    let u = add_all(s, cs);
    if cs.len() > 0 {
        let p = cs.drop_last();
        lemma_add_all_ids(s, p);
        let t = add_all(s, p);
        assert forall|i: int| 0 <= i < u.len() implies id_known(s, cs, id_of(#[trigger] u[i])) by {
            if i < t.len() && u[i] == t[i] {
                assert(id_known(s, p, id_of(t[i])));
                if !(exists|j: int| 0 <= j < s.len() && id_of(s[j]) == id_of(t[i])) {
                    let k = choose|k: int| 0 <= k < p.len() && p[k].object_ref.id == id_of(t[i]);
                    assert(cs[k] == p[k]);
                }
            } else {
                assert(id_of(u[i]) == cs[cs.len() - 1].object_ref.id);
            }
        }
    } else {
        assert(u == s);
        assert forall|i: int| 0 <= i < u.len() implies id_known(s, cs, id_of(#[trigger] u[i])) by {
            assert(id_of(s[i]) == id_of(u[i]));
        }
    }
}

/// Releasing coins whose ids the store does not know, no two with the same
/// id, leaves each of them in the store exactly once, available and as given.
pub proof fn lemma_release_fresh_coins(s: Seq<CoinEntry>, cs: Seq<GasCoin>)
    requires
        distinct_ids(s),
        forall|a: int, b: int|
            0 <= a < cs.len() && 0 <= b < cs.len() && a != b ==> (#[trigger] cs[a]).object_ref.id
                != (#[trigger] cs[b]).object_ref.id,
        forall|k: int, j: int| 0 <= k < cs.len() && 0 <= j < s.len() ==> (#[trigger] cs[k]).object_ref.id
            != id_of(#[trigger] s[j]),
    ensures
        distinct_ids(add_all(s, cs)),
        forall|k: int|
            0 <= k < cs.len() ==> exists|i: int|
                0 <= i < add_all(s, cs).len() && add_all(s, cs)[i] == (CoinEntry {
                    coin: #[trigger] cs[k],
                    hold: None,
                }),
    decreases cs.len(),
{
    lemma_add_all_distinct(s, cs);
    if cs.len() > 0 {
        let p = cs.drop_last();
        lemma_release_fresh_coins(s, p);
        lemma_add_all_ids(s, p);
        let t = add_all(s, p);
        let c = cs.last();
        assert forall|i: int| 0 <= i < t.len() implies id_of(#[trigger] t[i]) != c.object_ref.id by {
            assert(id_known(s, p, id_of(t[i])));
            if exists|j: int| 0 <= j < s.len() && id_of(s[j]) == id_of(t[i]) {
                let j = choose|j: int| 0 <= j < s.len() && id_of(s[j]) == id_of(t[i]);
                assert(cs[cs.len() - 1].object_ref.id != id_of(s[j]));
            } else {
                let k = choose|k: int| 0 <= k < p.len() && p[k].object_ref.id == id_of(t[i]);
                assert(cs[k] == p[k]);
                assert(cs[k].object_ref.id != cs[cs.len() - 1].object_ref.id);
            }
        }
        let u = add_all(s, cs);
        assert(u == t.push(CoinEntry { coin: c, hold: None }));
        assert forall|k: int| 0 <= k < cs.len() implies exists|i: int|
            0 <= i < u.len() && u[i] == (CoinEntry { coin: #[trigger] cs[k], hold: None }) by {
            if k < p.len() {
                assert(cs[k] == p[k]);
                let i = choose|i: int| 0 <= i < t.len() && t[i] == (CoinEntry { coin: p[k], hold: None });
                assert(u[i] == t[i]);
            } else {
                assert(u[t.len() as int] == (CoinEntry { coin: cs[k], hold: None }));
            }
        }
    }
}

/// Adding the same coin a second time leaves the store as the first addition
/// left it.
pub proof fn lemma_add_idempotent(s: Seq<CoinEntry>, c: GasCoin)
    requires
        distinct_ids(s),
    ensures
        add_all(add_all(s, seq![c]), seq![c]) == add_all(s, seq![c]),
{
    let one = seq![c];
    assert(one.drop_last() == Seq::<GasCoin>::empty());
    assert(one.last() == c);
    assert(add_all(s, one.drop_last()) == s);
    assert(add_all(s, one) == add_one(s, c));
    let t = add_one(s, c);
    assert(add_all(t, one.drop_last()) == t);
    assert(add_all(t, one) == add_one(t, c));
    lemma_add_one_distinct(s, c);
    if exists|i: int| 0 <= i < s.len() && id_of(s[i]) == c.object_ref.id {
        let i = choose|i: int| 0 <= i < s.len() && id_of(s[i]) == c.object_ref.id;
        assert(id_of(t[i]) == c.object_ref.id);
        let k = choose|k: int| 0 <= k < t.len() && id_of(t[k]) == c.object_ref.id;
        assert(k == i);
        assert(add_one(t, c) =~= t);
    } else {
        let n = s.len() as int;
        assert(id_of(t[n]) == c.object_ref.id);
        let k = choose|k: int| 0 <= k < t.len() && id_of(t[k]) == c.object_ref.id;
        assert(k == n);
        assert(add_one(t, c) =~= t);
    }
}

proof fn lemma_mark(s: Seq<CoinEntry>, i: int, e: CoinEntry, sponsor: Address)
    requires
        0 <= i < s.len(),
        is_free_of(s[i], sponsor),
        e.coin == s[i].coin,
        e.hold is Some,
    ensures
        free_count(s.update(i, e), sponsor) + 1 == free_count(s, sponsor),
        free_balance(s.update(i, e), sponsor) + s[i].coin.balance == free_balance(s, sponsor),
    decreases s.len(),
{
    let t = s.update(i, e);
    if i == s.len() - 1 {
        assert(t.drop_last() == s.drop_last());
    } else {
        lemma_mark(s.drop_last(), i, e, sponsor);
        assert(t.drop_last() == s.drop_last().update(i, e));
    }
}

proof fn lemma_none_free(s: Seq<CoinEntry>, sponsor: Address)
    requires
        forall|i: int| 0 <= i < s.len() ==> !is_free_of(#[trigger] s[i], sponsor),
    ensures
        free_count(s, sponsor) == 0,
        free_balance(s, sponsor) == 0,
    decreases s.len(),
{
    if s.len() > 0 {
        lemma_none_free(s.drop_last(), sponsor);
        assert(!is_free_of(s[s.len() - 1], sponsor));
    }
}

proof fn lemma_prefix_balance(s: Seq<CoinEntry>, k: int, sponsor: Address)
    requires
        0 <= k <= s.len(),
    ensures
        free_balance(s.take(k), sponsor) <= free_balance(s, sponsor),
    decreases s.len(),
{
    if k < s.len() {
        lemma_prefix_balance(s.drop_last(), k, sponsor);
        assert(s.drop_last().take(k) == s.take(k));
    } else {
        assert(s.take(k) == s);
    }
}

/// What a reservation of `coins` for `sponsor` under `hold` makes of the
/// store `s0`: only available coins of the sponsor become held, the coins
/// held under `hold` are exactly `coins`, and their balances cover the budget.
pub open spec fn reservation_made(
    s0: Seq<CoinEntry>,
    s1: Seq<CoinEntry>,
    sponsor: Address,
    gas_budget: u64,
    hold: Hold,
    coins: Seq<GasCoin>,
) -> bool {
    &&& sum_balances(coins) >= gas_budget
    &&& forall|a: int, b: int|
        0 <= a < coins.len() && 0 <= b < coins.len() && a != b ==> (#[trigger] coins[a]).object_ref.id
            != (#[trigger] coins[b]).object_ref.id
    &&& largest_first(s1, sponsor, gas_budget, coins)
    &&& free_count(s1, sponsor) + coins.len() == free_count(s0, sponsor)
    &&& s1.len() == s0.len()
    &&& forall|i: int|
        0 <= i < s1.len() ==> {
            let e = #[trigger] s1[i];
            let o = s0[i];
            &&& e.coin == o.coin
            &&& e == o || (is_free_of(o, sponsor) && e.hold == Some(hold))
            &&& e.hold == Some(hold) <==> coins.contains(e.coin)
        }
    &&& forall|c: GasCoin| #[trigger] coins.contains(c) ==> exists|i: int|
        0 <= i < s1.len() && s1[i].coin == c
}

/// Nothing selected: the store stays as it is.
pub(crate) proof fn lemma_keep_all(s: Seq<CoinEntry>, f: spec_fn(CoinEntry) -> bool)
    requires
        taken(s, f).len() == 0,
    ensures
        keep(s, f) == s,
    decreases s.len(),
{
    if s.len() > 0 {
        if f(s.last()) {
            assert(taken(s, f).len() > 0);
        }
        lemma_keep_all(s.drop_last(), f);
        assert(s.drop_last().push(s.last()) == s);
    }
}

/// The deadline of a hold that starts at `now` and lasts `duration`,
/// saturated to the range of `u64`.
pub open spec fn deadline(now: u64, duration: u64) -> u64 {
    if now + duration > u64::MAX {
        u64::MAX
    } else {
        (now + duration) as u64
    }
}

/// Taking reserved coins out of the store, whether to run a reservation or
/// because it expired, leaves every sponsor's available coins as they were.
pub proof fn lemma_removal_keeps_available(s: Seq<CoinEntry>, sel: Selector, sponsor: Address)
    ensures
        free_count(keep(s, selects(sel)), sponsor) == free_count(s, sponsor),
        free_balance(keep(s, selects(sel)), sponsor) == free_balance(s, sponsor),
    decreases s.len(),
{
    if s.len() > 0 {
        lemma_removal_keeps_available(s.drop_last(), sel, sponsor);
        let k = keep(s.drop_last(), selects(sel));
        if !selects(sel)(s.last()) {
            assert(k.push(s.last()).drop_last() == k);
        }
    }
}

/// Reserving and then running a reservation takes exactly the reserved coins
/// out of the sponsor's available count: the count after both steps is the
/// count before, less the coins of the reservation now in flight.
pub proof fn lemma_conservation(
    s0: Seq<CoinEntry>,
    s1: Seq<CoinEntry>,
    sponsor: Address,
    reservation_id: ReservationId,
    reserved: Seq<GasCoin>,
)
    requires
        free_count(s1, sponsor) + reserved.len() == free_count(s0, sponsor),
    ensures
        free_count(keep(s1, selects(Selector::Reservation(sponsor, reservation_id))), sponsor)
            == free_count(s0, sponsor) - reserved.len(),
{
    lemma_removal_keeps_available(s1, Selector::Reservation(sponsor, reservation_id), sponsor);
}

/// A sweep at `now` hands back the id of every coin whose hold ended at or
/// before `now`, and leaves no such coin held in the store.
pub proof fn lemma_sweep_reclaims_expired(s: Seq<CoinEntry>, now: u64)
    ensures
        forall|i: int|
            0 <= i < s.len() && (#[trigger] s[i]).hold is Some && s[i].hold->0.expiration_ms <= now
                ==> ids_of(coins_of(taken(s, selects(Selector::ExpiredAt(now))))).contains(id_of(s[i])),
        forall|i: int|
            0 <= i < keep(s, selects(Selector::ExpiredAt(now))).len() ==> {
                let e = #[trigger] keep(s, selects(Selector::ExpiredAt(now)))[i];
                e.hold is None || e.hold->0.expiration_ms > now
            },
{
    let f = selects(Selector::ExpiredAt(now));
    lemma_membership(s, f);
    lemma_keep_taken_parts(s, f);
    assert forall|i: int|
        0 <= i < s.len() && (#[trigger] s[i]).hold is Some && s[i].hold->0.expiration_ms <= now
            implies ids_of(coins_of(taken(s, f))).contains(id_of(s[i])) by {
        assert(s.contains(s[i]));
        assert(taken(s, f).contains(s[i]));
        lemma_ids_contains(taken(s, f), id_of(s[i]));
    }
}

/// In a well-formed store no coin is counted twice: two entries with the
/// same object id are the same entry, and each entry is either available or
/// held by the single reservation its hold names.
pub proof fn lemma_no_double_spend(store: CoinStore, i: int, j: int)
    requires
        store.wf(),
        0 <= i < store.entries@.len(),
        0 <= j < store.entries@.len(),
        id_of(store.entries@[i]) == id_of(store.entries@[j]),
    ensures
        i == j,
{
}

/// A reservation can be made ready at most once: once it has succeeded for
/// one sponsor, no coin of the store is held under that reservation id any
/// more, so a second attempt fails, whichever gas owner it names.
pub proof fn lemma_ready_at_most_once(
    s: Seq<CoinEntry>,
    first: Address,
    second: Address,
    reservation_id: ReservationId,
)
    requires
        same_owner_per_reservation(s),
        taken(s, selects(Selector::Reservation(first, reservation_id))).len() > 0,
    ensures
        taken(
            keep(s, selects(Selector::Reservation(first, reservation_id))),
            selects(Selector::Reservation(second, reservation_id)),
        ).len() == 0,
{
    let f1 = selects(Selector::Reservation(first, reservation_id));
    let f2 = selects(Selector::Reservation(second, reservation_id));
    lemma_keep_taken_parts(s, f1);
    let t = taken(s, f1);
    let w = t[0];
    assert(f1(w) && s.contains(w));
    let wi = choose|i: int| 0 <= i < s.len() && s[i] == w;
    let k = keep(s, f1);
    assert forall|i: int| 0 <= i < k.len() implies !f2(#[trigger] k[i]) by {
        assert(!f1(k[i]) && s.contains(k[i]));
        let xi = choose|x: int| 0 <= x < s.len() && s[x] == k[i];
        if f2(k[i]) {
            assert(s[xi].hold is Some && s[wi].hold is Some);
            assert(s[xi].coin.owner == s[wi].coin.owner);
        }
    }
    lemma_nothing_taken(k, f2);
}

proof fn lemma_nothing_taken(s: Seq<CoinEntry>, f: spec_fn(CoinEntry) -> bool)
    requires
        forall|i: int| 0 <= i < s.len() ==> !f(#[trigger] s[i]),
    ensures
        taken(s, f).len() == 0,
    decreases s.len(),
{
    if s.len() > 0 {
        lemma_nothing_taken(s.drop_last(), f);
        assert(!f(s[s.len() - 1]));
    }
}

} // verus!
