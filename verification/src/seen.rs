//! The set of addresses met so far in a list, kept in a map of the ledger's SDK.
use vstd::prelude::*;

use crate::address::{Address, AddressKind};

verus! {

/// The SDK's handle on the host. Opaque: it is only passed on.
#[verifier::external_type_specification]
#[verifier::external_body]
pub struct ExEnv(soroban_sdk::Env);

/// The SDK's ordered map, whose contents the host keeps. Opaque: what it holds
/// is told by [`met`].
#[verifier::external_type_specification]
#[verifier::external_body]
#[verifier::reject_recursive_types(K)]
#[verifier::reject_recursive_types(V)]
pub struct ExMap<K, V>(soroban_sdk::Map<K, V>);

/// The integers by which an address is filed: its kind and the two halves of
/// its payload.
pub type AddressCode = (u32, u128, u128);

/// The map in which addresses are filed, with no value to a key.
pub type SeenMap = soroban_sdk::Map<(u32, u128, u128), ()>;

/// The keys that the map holds.
pub uninterp spec fn met(m: soroban_sdk::Map<(u32, u128, u128), ()>) -> Set<(u32, u128, u128)>;

/// The integers by which an address is filed.
pub open spec fn code_of(a: Address) -> AddressCode {
    (
        match a.kind {
            AddressKind::Account => 0u32,
            AddressKind::Contract => 1u32,
        },
        a.hi,
        a.lo,
    )
}

/// The integers by which an address is filed. No two addresses have the same.
pub fn address_code(a: Address) -> (r: AddressCode)
    ensures
        r == code_of(a),
{
    let kind: u32 = match a.kind {
        AddressKind::Account => 0,
        AddressKind::Contract => 1,
    };
    (kind, a.hi, a.lo)
}

/// `soroban_sdk::Map::new`: a new map holds no key. The host that keeps the map
/// meters what it does, and ends the whole transaction once its budget is
/// spent; nothing is said of such a call, here and below.
#[verifier::external_body]
pub(crate) fn nobody_met(sdk: &soroban_sdk::Env) -> (r: SeenMap)
    ensures
        met(r) == Set::<AddressCode>::empty(),
{
    soroban_sdk::Map::new(sdk)
}

/// `soroban_sdk::Map::contains_key`: tells whether the map holds the key. Keys
/// are compared by value, integer by integer.
#[verifier::external_body]
pub(crate) fn is_met(m: &SeenMap, code: AddressCode) -> (r: bool)
    ensures
        r == met(*m).contains(code),
{
    m.contains_key(code)
}

/// `soroban_sdk::Map::set`, with the unit value: the map then holds the key,
/// and holds every other key exactly if it did before. A map has room for
/// `u32::MAX` keys; the call would trap on one more.
#[verifier::external_body]
pub(crate) fn note_met(m: &mut SeenMap, code: AddressCode)
    requires
        met(*old(m)).finite(),
        met(*old(m)).len() < u32::MAX,
    ensures
        met(*final(m)) == met(*old(m)).insert(code),
{
    m.set(code, ());
}

/// An address can be told from the integers that it is filed by: no two
/// addresses are filed alike.
pub proof fn law_addresses_are_told_apart(a: Address, b: Address)
    ensures
        code_of(a) == code_of(b) <==> a == b,
        code_of(a).0 == 0 <==> a.kind == AddressKind::Account,
        code_of(a).0 == 1 <==> a.kind == AddressKind::Contract,
        code_of(a).1 == a.hi,
        code_of(a).2 == a.lo,
{
}

} // verus!
