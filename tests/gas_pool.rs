use sui_gas_pool::coin_store::CoinStore;
use sui_gas_pool::pool::{
    coins_to_release, ExecutionEffects, gas_coin_after_success, get_total_gas_coin_balance, surviving_coins, GasPool,
    HEALTH_CHECK_BUDGET,
};
use sui_gas_pool::transaction::{
    check_transaction_validity, Argument, Command, GasData, TransactionData,
};
use sui_gas_pool::types::{GasCoin, GasPoolError, ObjectRef};
use sui_gas_pool::usage_cap::{GasUsageCap, WINDOW_MS};

const SPONSOR: u64 = 7;

fn coin(id: u64, version: u64, balance: u64) -> GasCoin {
    GasCoin {
        owner: SPONSOR,
        object_ref: ObjectRef { id, version, digest: id * 100 + version },
        balance,
    }
}

fn pool_with(coins: Vec<GasCoin>, daily_cap: u64) -> GasPool {
    let mut pool = GasPool::new(vec![SPONSOR], daily_cap, 0);
    pool.release_gas_coins(&coins);
    pool
}

fn tx(owner: u64, payment: Vec<ObjectRef>, commands: Vec<Command>) -> TransactionData {
    TransactionData {
        sender: 99,
        commands,
        gas_data: GasData { owner, payment, budget: 1_000_000, price: 1000 },
    }
}

fn available(pool: &GasPool) -> Vec<GasCoin> {
    pool.store.entries.iter().filter(|e| e.hold.is_none()).map(|e| e.coin).collect()
}

#[test]
fn happy_path_returns_one_coin_with_derived_balance() {
    let a = coin(1, 1, 1_000_000);
    let b = coin(2, 1, 500_000);
    let mut pool = pool_with(vec![a, b], u64::MAX);
    let (sponsor, rid, refs) = pool.reserve_gas(None, 900_000, 3000, 0).unwrap();
    assert_eq!(sponsor, SPONSOR);
    assert_eq!(refs, vec![a.object_ref]);
    let t = tx(SPONSOR, refs.clone(), vec![]);
    let payment = pool.prepare_execution(rid, &t).unwrap();
    assert_eq!(payment, vec![1]);
    let pre = get_total_gas_coin_balance(&vec![Some(a)]);
    assert_eq!(pre, 1_000_000);
    let gas_object = ObjectRef { id: 1, version: 2, digest: 555 };
    let survivor = gas_coin_after_success(SPONSOR, gas_object, pre, 700_000).unwrap();
    assert_eq!(survivor, GasCoin { owner: SPONSOR, object_ref: gas_object, balance: 300_000 });
    let smashed = pool.complete_execution(payment.len(), &vec![survivor]);
    assert_eq!(smashed, 0);
    let avail = available(&pool);
    assert_eq!(avail.len(), 2);
    assert!(avail.contains(&survivor));
    assert!(avail.contains(&b));
    assert_eq!(pool.query_pool_available_coin_count(SPONSOR), 2);
}

#[test]
fn smashing_merges_payment_into_gas_object() {
    let (a, b, c) = (coin(1, 1, 200_000), coin(2, 1, 200_000), coin(3, 1, 200_000));
    let mut pool = pool_with(vec![a, b, c], u64::MAX);
    let (_, rid, refs) = pool.reserve_gas(None, 500_000, 3000, 0).unwrap();
    assert_eq!(refs.len(), 3);
    let payment = pool.prepare_execution(rid, &tx(SPONSOR, refs, vec![])).unwrap();
    let pre = get_total_gas_coin_balance(&vec![Some(a), Some(b), Some(c)]);
    assert_eq!(pre, 600_000);
    let gas_object = ObjectRef { id: 1, version: 2, digest: 9 };
    let survivor = gas_coin_after_success(SPONSOR, gas_object, pre, 100_000).unwrap();
    assert_eq!(survivor.balance, 500_000);
    assert_eq!(survivor.object_ref, gas_object);
    assert_eq!(pool.complete_execution(payment.len(), &vec![survivor]), 2);
    assert_eq!(pool.query_pool_available_coin_count(SPONSOR), 1);
}

#[test]
fn submission_failure_returns_surviving_coins() {
    let (a, b, c) = (coin(1, 1, 200_000), coin(2, 1, 200_000), coin(3, 1, 200_000));
    let mut pool = pool_with(vec![a, b, c], u64::MAX);
    let (_, rid, refs) = pool.reserve_gas(None, 500_000, 3000, 0).unwrap();
    let payment = pool.prepare_execution(rid, &tx(SPONSOR, refs, vec![])).unwrap();
    let survivors = surviving_coins(&vec![Some(a), Some(b), None]);
    assert_eq!(survivors, vec![a, b]);
    assert_eq!(pool.complete_execution(payment.len(), &survivors), 1);
    let avail = available(&pool);
    assert_eq!(avail, vec![a, b]);
}

#[test]
fn gas_coin_misuse_is_rejected_before_commit() {
    let a = coin(1, 1, 1_000_000);
    let mut pool = pool_with(vec![a], u64::MAX);
    let (_, rid, refs) = pool.reserve_gas(None, 10, 3000, 0).unwrap();
    let bad = tx(SPONSOR, refs.clone(), vec![Command::SplitCoins(Argument::GasCoin, vec![Argument::Input(0)])]);
    assert_eq!(pool.prepare_execution(rid, &bad), Err(GasPoolError::GasCoinMisuse));
    // The reservation was not consumed: a valid transaction still runs.
    let good = tx(SPONSOR, refs, vec![Command::SplitCoins(Argument::Input(0), vec![Argument::Input(1)])]);
    assert_eq!(pool.prepare_execution(rid, &good), Ok(vec![1]));
}

#[test]
fn expired_reservation_returns_to_pool() {
    let (a, b) = (coin(1, 1, 300), coin(2, 1, 400));
    let mut pool = pool_with(vec![a, b], u64::MAX);
    let before = pool.query_pool_available_coin_count(SPONSOR);
    let (_, _, refs) = pool.reserve_gas(None, 400, 100, 0).unwrap();
    assert_eq!(refs, vec![b.object_ref]);
    assert_eq!(pool.query_pool_available_coin_count(SPONSOR), before - 1);
    assert!(pool.expire_coins(50).is_empty());
    let ids = pool.expire_coins(1200);
    assert_eq!(ids, vec![2]);
    pool.release_gas_coins(&vec![b]);
    assert_eq!(pool.query_pool_available_coin_count(SPONSOR), before);
}

#[test]
fn cap_blocks_reservations_until_window_rolls() {
    let a = coin(1, 1, 1_000_000_000);
    let mut pool = pool_with(vec![a], 1_000_000);
    assert_eq!(pool.record_gas_usage(1_000_001, 10), 1_000_001);
    assert_eq!(pool.reserve_gas(None, 10, 3000, 20), Err(GasPoolError::CapExceeded));
    assert_eq!(pool.reserve_gas(None, 10, 3000, WINDOW_MS - 1), Err(GasPoolError::CapExceeded));
    assert!(pool.reserve_gas(None, 10, 3000, WINDOW_MS).is_ok());
}

#[test]
fn usage_strictly_increases_within_window() {
    let mut cap = GasUsageCap::new(100, 0);
    let mut last = cap.update_usage(5, 1);
    for step in 2..20u64 {
        let next = cap.update_usage(3, step * 1000);
        assert!(next > last);
        last = next;
    }
    assert_eq!(last, 5 + 18 * 3);
    assert_eq!(cap.update_usage(-2, WINDOW_MS + 5), -2);
}

#[test]
fn usage_cap_check_boundaries() {
    let mut cap = GasUsageCap::new(10, 0);
    assert_eq!(cap.check_usage(0), Ok(()));
    cap.update_usage(9, 0);
    assert_eq!(cap.check_usage(1), Ok(()));
    cap.update_usage(1, 2);
    assert_eq!(cap.check_usage(3), Err(GasPoolError::CapExceeded));
    assert_eq!(cap.check_usage(WINDOW_MS), Ok(()));
    assert_eq!(cap.update_usage(i64::MAX, 4), i64::MAX);
}

#[test]
fn adding_same_coin_twice_is_noop() {
    let mut store = CoinStore::new();
    let a = coin(1, 3, 50);
    store.add_new_coins(&vec![a]);
    let once: Vec<_> = store.entries.clone();
    store.add_new_coins(&vec![a]);
    assert_eq!(store.entries, once);
    // An older version does not replace a newer one; a newer one does.
    store.add_new_coins(&vec![coin(1, 2, 70)]);
    assert_eq!(store.entries, once);
    store.add_new_coins(&vec![coin(1, 4, 80)]);
    assert_eq!(store.entries[0].coin, coin(1, 4, 80));
    assert_eq!(store.entries.len(), 1);
}

#[test]
fn reservation_is_ready_at_most_once() {
    let mut store = CoinStore::new();
    store.add_new_coins(&vec![coin(1, 1, 10), coin(2, 1, 20)]);
    let (rid, coins) = store.reserve_gas_coins(SPONSOR, 15, 1000, 0).unwrap();
    assert_eq!(coins, vec![coin(2, 1, 20)]);
    assert_eq!(store.ready_for_execution(SPONSOR, rid), Ok(coins));
    assert_eq!(store.ready_for_execution(SPONSOR, rid), Err(GasPoolError::ReservationExpired));
}

#[test]
fn two_sweeps_are_disjoint_and_complete() {
    let mut store = CoinStore::new();
    store.add_new_coins(&vec![coin(1, 1, 10), coin(2, 1, 10), coin(3, 1, 10)]);
    store.reserve_gas_coins(SPONSOR, 10, 100, 0).unwrap();
    store.reserve_gas_coins(SPONSOR, 10, 500, 0).unwrap();
    let first = store.expire_coins(200);
    let second = store.expire_coins(600);
    assert_eq!(first.len(), 1);
    assert_eq!(second.len(), 1);
    assert!(first.iter().all(|id| !second.contains(id)));
    assert_eq!(store.expire_coins(600), Vec::<u64>::new());
    assert_eq!(store.available_coin_count(SPONSOR), 1);
}

#[test]
fn no_coin_is_both_available_and_reserved() {
    let mut store = CoinStore::new();
    store.add_new_coins(&vec![coin(1, 1, 10), coin(2, 1, 10)]);
    let (rid, coins) = store.reserve_gas_coins(SPONSOR, 5, 100, 0).unwrap();
    // Re-adding a reserved coin does not make it available a second time.
    store.add_new_coins(&coins);
    assert_eq!(store.entries.len(), 2);
    assert_eq!(store.available_coin_count(SPONSOR), 1);
    assert_eq!(store.ready_for_execution(SPONSOR, rid).unwrap().len(), 1);
    assert_eq!(store.entries.len(), 1);
}

#[test]
fn conservation_over_reserve_and_ready() {
    let mut store = CoinStore::new();
    store.add_new_coins(&vec![coin(1, 1, 10), coin(2, 1, 10), coin(3, 1, 10), coin(4, 1, 10)]);
    let initial = store.available_coin_count(SPONSOR);
    let (rid, coins) = store.reserve_gas_coins(SPONSOR, 25, 100, 0).unwrap();
    assert_eq!(coins.len(), 3);
    store.ready_for_execution(SPONSOR, rid).unwrap();
    assert_eq!(store.available_coin_count(SPONSOR), initial - 3);
}

#[test]
fn no_capacity_when_balance_falls_short() {
    let mut pool = pool_with(vec![coin(1, 1, 10), coin(2, 1, 10)], u64::MAX);
    assert_eq!(pool.reserve_gas(None, 21, 100, 0), Err(GasPoolError::NoCapacity));
    assert_eq!(pool.reserve_gas(Some(SPONSOR + 1), 1, 100, 0), Err(GasPoolError::NoCapacity));
    assert_eq!(pool.query_pool_available_coin_count(SPONSOR), 2);
    assert!(pool.reserve_gas(None, 20, 100, 0).is_ok());
}

#[test]
fn unknown_sponsor_is_rejected() {
    let mut pool = pool_with(vec![coin(1, 1, 10)], u64::MAX);
    let (_, rid, refs) = pool.reserve_gas(None, 5, 100, 0).unwrap();
    assert_eq!(pool.prepare_execution(rid, &tx(SPONSOR + 1, refs, vec![])), Err(GasPoolError::UnknownSponsor));
}

#[test]
fn expired_reservation_cannot_execute() {
    let mut pool = pool_with(vec![coin(1, 1, 10)], u64::MAX);
    let (_, rid, refs) = pool.reserve_gas(None, 5, 100, 0).unwrap();
    assert_eq!(pool.expire_coins(100), vec![1]);
    assert_eq!(pool.prepare_execution(rid, &tx(SPONSOR, refs, vec![])), Err(GasPoolError::ReservationExpired));
}

#[test]
fn balance_law_and_invalid_difference() {
    let r = ObjectRef { id: 4, version: 9, digest: 1 };
    assert_eq!(gas_coin_after_success(1, r, 1_000, 250).unwrap().balance, 750);
    assert_eq!(gas_coin_after_success(1, r, 1_000, -250).unwrap().balance, 1_250);
    assert_eq!(gas_coin_after_success(1, r, 100, 250), None);
    assert_eq!(get_total_gas_coin_balance(&vec![Some(coin(1, 1, u64::MAX)), Some(coin(2, 1, 1))]), u64::MAX);
    assert_eq!(get_total_gas_coin_balance(&vec![None, Some(coin(2, 1, 5))]), 5);
}

#[test]
fn transaction_validity_checks_every_argument() {
    let ok = tx(SPONSOR, vec![], vec![
        Command::Publish,
        Command::Upgrade,
        Command::MoveCall(vec![Argument::Input(0), Argument::Result(1)]),
        Command::MakeMoveVec(vec![Argument::NestedResult(0, 1)]),
    ]);
    assert_eq!(check_transaction_validity(&ok), Ok(()));
    for c in [
        Command::MoveCall(vec![Argument::Input(0), Argument::GasCoin]),
        Command::TransferObjects(vec![Argument::GasCoin], Argument::Input(0)),
        Command::TransferObjects(vec![Argument::Input(1)], Argument::GasCoin),
        Command::MergeCoins(Argument::Input(0), vec![Argument::GasCoin]),
        Command::MergeCoins(Argument::GasCoin, vec![]),
        Command::MakeMoveVec(vec![Argument::GasCoin]),
    ] {
        let t = tx(SPONSOR, vec![], vec![Command::Publish, c]);
        assert_eq!(check_transaction_validity(&t), Err(GasPoolError::GasCoinMisuse));
    }
}

#[test]
fn health_check_reserves_and_builds_empty_transaction() {
    let mut pool = pool_with(vec![coin(1, 1, HEALTH_CHECK_BUDGET)], u64::MAX);
    let t = pool.debug_check_health(0).unwrap();
    assert!(t.commands.is_empty());
    assert_eq!(t.gas_data.owner, SPONSOR);
    assert_eq!(t.gas_data.payment, vec![coin(1, 1, 0).object_ref]);
    assert_eq!(pool.debug_check_health(0).err(), Some(GasPoolError::NoCapacity));
    assert_eq!(pool.support_address(), vec![SPONSOR]);
}

#[test]
fn settlement_returns_derived_coin_or_asks_for_lookup() {
    let gas_object = ObjectRef { id: 1, version: 2, digest: 3 };
    let fx = ExecutionEffects { gas_object, net_gas_usage: 100_000 };
    assert_eq!(
        coins_to_release(SPONSOR, Some(fx), 600_000),
        Some(vec![GasCoin { owner: SPONSOR, object_ref: gas_object, balance: 500_000 }])
    );
    assert_eq!(coins_to_release(SPONSOR, None, 600_000), None);
    assert_eq!(coins_to_release(SPONSOR, Some(fx), 50_000), None);
}

#[test]
fn reservation_takes_largest_coins_first() {
    let mut store = CoinStore::new();
    store.add_new_coins(&vec![coin(1, 1, 100), coin(2, 1, 400), coin(3, 1, 250), coin(4, 1, 300)]);
    let (_, coins) = store.reserve_gas_coins(SPONSOR, 650, 1000, 0).unwrap();
    assert_eq!(coins, vec![coin(2, 1, 400), coin(4, 1, 300)]);
    assert_eq!(store.available_coin_count(SPONSOR), 2);
}

#[test]
fn releasing_several_coins_twice_is_noop() {
    let mut store = CoinStore::new();
    store.add_new_coins(&vec![coin(1, 1, 10)]);
    let cs = vec![coin(1, 2, 5), coin(2, 1, 20), coin(3, 4, 30)];
    store.add_new_coins(&cs);
    let once = store.entries.clone();
    store.add_new_coins(&cs);
    assert_eq!(store.entries, once);
    assert_eq!(store.available_coin_count(SPONSOR), 3);
}

#[test]
fn reservation_cannot_run_under_another_owner_after_commit() {
    let mut store = CoinStore::new();
    store.add_new_coins(&vec![coin(1, 1, 10)]);
    let (rid, _) = store.reserve_gas_coins(SPONSOR, 5, 100, 0).unwrap();
    assert_eq!(store.ready_for_execution(SPONSOR + 1, rid), Err(GasPoolError::ReservationExpired));
    assert!(store.ready_for_execution(SPONSOR, rid).is_ok());
    assert_eq!(store.ready_for_execution(SPONSOR + 1, rid), Err(GasPoolError::ReservationExpired));
}

#[test]
fn health_check_errors_follow_reservation() {
    let mut pool = pool_with(vec![coin(1, 1, HEALTH_CHECK_BUDGET)], 10);
    pool.record_gas_usage(10, 0);
    assert_eq!(pool.debug_check_health(1).err(), Some(GasPoolError::CapExceeded));
    assert_eq!(pool.query_pool_available_coin_count(SPONSOR), 1);
}
