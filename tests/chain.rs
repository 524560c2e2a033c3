use sui_gas_pool::chain::{
    coins_above_balance_threshold, gas_cost_per_object, get_latest_gas_objects,
    is_object_at_version, object_id_batches, request_type_or_default, try_get_sui_coin_balance,
    CoinInfo, ExecuteTransactionRequestType, MoveObject, ObjectData, Owner,
};
use sui_gas_pool::types::{GasCoin, ObjectRef};

fn coin_bytes(value: u64) -> Vec<u8> {
    let mut b = vec![0xAB; 32];
    b.extend_from_slice(&value.to_le_bytes());
    b
}

fn object(owner: Option<Owner>, is_gas_coin: bool, bytes: Vec<u8>) -> Option<ObjectData> {
    Some(ObjectData {
        object_ref: ObjectRef { id: 5, version: 8, digest: 13 },
        owner,
        move_object: Some(MoveObject { is_gas_coin, bcs_bytes: bytes }),
    })
}

#[test]
fn decodes_gas_coin_balance() {
    let o = object(Some(Owner::AddressOwner(3)), true, coin_bytes(0x0102_0304_0506_0708));
    assert_eq!(
        try_get_sui_coin_balance(&o),
        Some(GasCoin {
            owner: 3,
            object_ref: ObjectRef { id: 5, version: 8, digest: 13 },
            balance: 0x0102_0304_0506_0708,
        })
    );
}

#[test]
fn rejects_objects_that_are_not_owned_gas_coins() {
    assert_eq!(try_get_sui_coin_balance(&None), None);
    assert_eq!(try_get_sui_coin_balance(&object(Some(Owner::Shared), true, coin_bytes(1))), None);
    assert_eq!(try_get_sui_coin_balance(&object(None, true, coin_bytes(1))), None);
    assert_eq!(try_get_sui_coin_balance(&object(Some(Owner::AddressOwner(3)), false, coin_bytes(1))), None);
    let mut short = coin_bytes(1);
    short.pop();
    assert_eq!(try_get_sui_coin_balance(&object(Some(Owner::AddressOwner(3)), true, short)), None);
    let mut long = coin_bytes(1);
    long.push(0);
    assert_eq!(try_get_sui_coin_balance(&object(Some(Owner::AddressOwner(3)), true, long)), None);
}

#[test]
fn latest_objects_pair_ids_with_state() {
    let ids = vec![5, 6];
    let responses = vec![object(Some(Owner::AddressOwner(3)), true, coin_bytes(77)), None];
    let latest = get_latest_gas_objects(&ids, &responses).unwrap();
    assert_eq!(latest[0].0, 5);
    assert_eq!(latest[0].1.unwrap().balance, 77);
    assert_eq!(latest[1], (6, None));
    assert_eq!(get_latest_gas_objects(&ids, &vec![None]), None);
}

#[test]
fn ids_are_batched_by_fifty() {
    let ids: Vec<u64> = (0..120).collect();
    let batches = object_id_batches(&ids);
    assert_eq!(batches.iter().map(|b| b.len()).collect::<Vec<_>>(), vec![50, 50, 20]);
    assert_eq!(batches.concat(), ids);
    assert!(object_id_batches(&vec![]).is_empty());
    assert_eq!(object_id_batches(&(0..50).collect()).len(), 1);
}

#[test]
fn listing_keeps_coins_at_or_above_threshold() {
    let r = |id| ObjectRef { id, version: 1, digest: 0 };
    let page = vec![
        CoinInfo { object_ref: r(1), balance: 10 },
        CoinInfo { object_ref: r(2), balance: 9 },
        CoinInfo { object_ref: r(3), balance: 11 },
    ];
    let coins = coins_above_balance_threshold(4, &page, 10);
    assert_eq!(
        coins,
        vec![
            GasCoin { owner: 4, object_ref: r(1), balance: 10 },
            GasCoin { owner: 4, object_ref: r(3), balance: 11 },
        ]
    );
}

#[test]
fn calibration_formula() {
    assert_eq!(gas_cost_per_object(1_000_000), 4_000);
    assert_eq!(gas_cost_per_object(999), 2);
    assert_eq!(gas_cost_per_object(499), 0);
}

#[test]
fn request_type_defaults_to_effects_cert() {
    assert_eq!(request_type_or_default(None), ExecuteTransactionRequestType::WaitForEffectsCert);
    assert_eq!(
        request_type_or_default(Some(ExecuteTransactionRequestType::WaitForLocalExecution)),
        ExecuteTransactionRequestType::WaitForLocalExecution
    );
}

#[test]
fn waits_for_exact_version() {
    let want = ObjectRef { id: 5, version: 8, digest: 0 };
    assert!(is_object_at_version(want, &object(None, true, vec![])));
    assert!(!is_object_at_version(ObjectRef { version: 9, ..want }, &object(None, true, vec![])));
    assert!(!is_object_at_version(want, &None));
}
