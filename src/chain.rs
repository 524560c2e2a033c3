use crate::types::{Address, GasCoin, ObjectId, ObjectRef};
use itertools::Itertools;
use vstd::prelude::*;

verus! {

/// How many object ids one lookup request carries.
pub const OBJECT_BATCH_SIZE: usize = 50;

/// How many pieces the calibration transaction splits a coin into.
pub const CALIBRATION_SPLIT_COUNT: u64 = 500;

/// Who owns an on-chain object.
#[derive(Clone, Copy, Debug, PartialEq, Eq, Structural)]
pub enum Owner {
    AddressOwner(Address),
    ObjectOwner(Address),
    Shared,
    Immutable,
}

/// The contents of a Move object: whether its type is the gas coin type,
/// and its serialized fields.
#[derive(Clone, Debug)]
pub struct MoveObject {
    pub is_gas_coin: bool,
    pub bcs_bytes: Vec<u8>,
}

/// What a full node reports of one object.
#[derive(Clone, Debug)]
pub struct ObjectData {
    pub object_ref: ObjectRef,
    pub owner: Option<Owner>,
    pub move_object: Option<MoveObject>,
}

/// A coin as a listing of owned coins reports it.
#[derive(Clone, Copy, Debug, PartialEq, Eq, Structural)]
pub struct CoinInfo {
    pub object_ref: ObjectRef,
    pub balance: u64,
}

/// How long a submission waits before it returns.
#[derive(Clone, Copy, Debug, PartialEq, Eq, Structural)]
pub enum ExecuteTransactionRequestType {
    WaitForEffectsCert,
    WaitForLocalExecution,
}

/// The value of eight bytes read as a little-endian unsigned integer.
pub open spec fn le_u64(b: Seq<u8>) -> int {
    b[0] + 256 * b[1] + 65536 * b[2] + 16777216 * b[3] + 4294967296 * b[4] + 1099511627776 * b[5]
        + 281474976710656 * b[6] + 72057594037927936 * b[7]
}

/// Relies on `bcs::from_bytes` for the fields of a gas coin, an object id of
/// 32 bytes followed by a `u64` value: it reads the id byte by byte and the
/// value as eight little-endian bytes, and fails unless the input ends
/// exactly there.
#[verifier::external_body]
fn decode_coin_value(bytes: &Vec<u8>) -> (r: Option<u64>)
    ensures
        r is Some <==> bytes@.len() == 40,
        r is Some ==> r->0 == le_u64(bytes@.subrange(32, 40)),
{
    bcs::from_bytes::<([u8; 32], u64)>(bytes).ok().map(|(_, value)| value)
}

/// The gas coin an object response describes, if it is a gas coin owned by
/// an address and its contents decode.
pub open spec fn coin_of(object: Option<ObjectData>) -> Option<GasCoin> {
    match object {
        Some(d) => {
            if d.owner is Some && d.owner->0 is AddressOwner && d.move_object is Some
                && d.move_object->0.is_gas_coin && d.move_object->0.bcs_bytes@.len() == 40 {
                Some(
                    GasCoin {
                        owner: d.owner->0->AddressOwner_0,
                        object_ref: d.object_ref,
                        balance: le_u64(d.move_object->0.bcs_bytes@.subrange(32, 40)) as u64,
                    },
                )
            } else {
                None
            }
        },
        None => None,
    }
}

/// Reads a gas coin out of an object response; `None` when the object is
/// gone, not owned by an address, or not a gas coin.
pub fn try_get_sui_coin_balance(object: &Option<ObjectData>) -> (r: Option<GasCoin>)
    ensures
        r == coin_of(*object),
{
    let data = match object {
        Some(d) => d,
        None => return None,
    };
    let owner = match data.owner {
        Some(Owner::AddressOwner(a)) => a,
        _ => return None,
    };
    let move_object = match &data.move_object {
        Some(m) => m,
        None => return None,
    };
    if !move_object.is_gas_coin {
        return None;
    }
    match decode_coin_value(&move_object.bcs_bytes) {
        Some(balance) => Some(GasCoin { owner, object_ref: data.object_ref, balance }),
        None => None,
    }
}

/// The latest state of each of `ids`, given the responses of a lookup in the
/// same order; `None` when the lookup did not answer for every id.
pub fn get_latest_gas_objects(ids: &Vec<ObjectId>, responses: &Vec<Option<ObjectData>>) -> (r:
    Option<Vec<(ObjectId, Option<GasCoin>)>>)
    ensures
        r is Some <==> ids@.len() == responses@.len(),
        r is Some ==> r->0@.len() == ids@.len() && forall|i: int|
            0 <= i < ids@.len() ==> #[trigger] r->0@[i] == (ids@[i], coin_of(responses@[i])),
{
    if ids.len() != responses.len() {
        return None;
    }
    let mut out: Vec<(ObjectId, Option<GasCoin>)> = Vec::new();
    let mut i: usize = 0;
    while i < ids.len()
        invariant
            0 <= i <= ids@.len(),
            ids@.len() == responses@.len(),
            out@.len() == i,
            forall|k: int| 0 <= k < i ==> #[trigger] out@[k] == (ids@[k], coin_of(responses@[k])),
        decreases ids@.len() - i,
    {
        out.push((ids[i], try_get_sui_coin_balance(&responses[i])));
        i += 1;
    }
    Some(out)
}

/// `chunks` cuts `s` into consecutive pieces of `size` items, the last one
/// shorter when the items run out.
pub open spec fn chunked(s: Seq<ObjectId>, size: int, chunks: Seq<Seq<ObjectId>>) -> bool {
    &&& chunks.len() == (s.len() + size - 1) / size
    &&& forall|k: int|
        0 <= k < chunks.len() ==> #[trigger] chunks[k] == s.subrange(
            k * size,
            if (k + 1) * size < s.len() {
                (k + 1) * size
            } else {
                s.len() as int
            },
        )
}

/// Relies on `itertools::Itertools::chunks`: consecutive groups of `size`
/// items, the last one shorter when the items run out; it panics when
/// `size` is zero.
#[verifier::external_body]
fn chunks_of(ids: &Vec<ObjectId>, size: usize) -> (r: Vec<Vec<ObjectId>>)
    requires
        size > 0,
    ensures
        chunked(ids@, size as int, r@.map_values(|c: Vec<ObjectId>| c@)),
{
    let chunks = ids.iter().copied().chunks(size);
    chunks.into_iter().map(|c| c.collect()).collect()
}

/// Splits object ids into the batches that lookups are sent in.
pub fn object_id_batches(ids: &Vec<ObjectId>) -> (r: Vec<Vec<ObjectId>>)
    ensures
        chunked(ids@, OBJECT_BATCH_SIZE as int, r@.map_values(|c: Vec<ObjectId>| c@)),
{
    chunks_of(ids, OBJECT_BATCH_SIZE)
}

/// The owned coins of a listing page whose balance is at least `threshold`,
/// as gas coins of `owner`, in order.
pub fn coins_above_balance_threshold(owner: Address, page: &Vec<CoinInfo>, threshold: u64) -> (r:
    Vec<GasCoin>)
    ensures
        r@ == page@.filter(|c: CoinInfo| c.balance >= threshold).map_values(
            |c: CoinInfo| GasCoin { owner, object_ref: c.object_ref, balance: c.balance },
        ),
{
    let ghost f = |c: CoinInfo| c.balance >= threshold;
    let ghost g = |c: CoinInfo| GasCoin { owner, object_ref: c.object_ref, balance: c.balance };
    let mut coins: Vec<GasCoin> = Vec::new();
    let mut i: usize = 0;
    while i < page.len()
        invariant
            0 <= i <= page@.len(),
            coins@ == page@.take(i as int).filter(f).map_values(g),
            f == (|c: CoinInfo| c.balance >= threshold),
            g == (|c: CoinInfo| GasCoin { owner, object_ref: c.object_ref, balance: c.balance }),
        decreases page@.len() - i,
    {
        let c = page[i];
        proof {
            let p = page@.take(i as int);
            assert(page@.take(i + 1) == p.push(c));
            reveal(Seq::filter);
            assert(p.push(c).drop_last() == p);
        }
        if c.balance >= threshold {
            coins.push(GasCoin { owner, object_ref: c.object_ref, balance: c.balance });
        }
        i += 1;
        assert(coins@ =~= page@.take(i as int).filter(f).map_values(g));
    }
    assert(page@.take(i as int) == page@);
    coins
}

/// The cost of creating one object, estimated from the gas a split of a
/// coin into `CALIBRATION_SPLIT_COUNT` pieces used, doubled to leave room.
pub fn gas_cost_per_object(gas_used: u64) -> (r: u64)
    ensures
        r == (gas_used as int) / (CALIBRATION_SPLIT_COUNT as int) * 2,
{
    gas_used / CALIBRATION_SPLIT_COUNT * 2
}

/// The request type of a submission: waiting for the effects certificate
/// unless the caller asks otherwise.
pub fn request_type_or_default(request_type: Option<ExecuteTransactionRequestType>) -> (r:
    ExecuteTransactionRequestType)
    ensures
        r == match request_type {
            Some(t) => t,
            None => ExecuteTransactionRequestType::WaitForEffectsCert,
        },
{
    match request_type {
        Some(t) => t,
        None => ExecuteTransactionRequestType::WaitForEffectsCert,
    }
}

/// Whether a full node's answer shows the object at exactly the version of
/// `obj_ref`, which a wait for that version polls for.
pub fn is_object_at_version(obj_ref: ObjectRef, object: &Option<ObjectData>) -> (r: bool)
    ensures
        r == (object is Some && object->0.object_ref.id == obj_ref.id
            && object->0.object_ref.version == obj_ref.version),
{
    match object {
        Some(d) => d.object_ref.id == obj_ref.id && d.object_ref.version == obj_ref.version,
        None => false,
    }
}

} // verus!
