//! What each call of the registry is for, told by its inputs and results.
use vstd::prelude::*;

use crate::address::Address;
use crate::index::ids_under;
use crate::invocation::Extension;
use crate::registry::{
    ascii, deactivate_refusal, entries_of, error_code, extensions_of, id_range, index_extension,
    page_end, page_start, register_refusal, role_abort, type_named, Abort, AssetEntryView,
    AssetType, DataKey, Error, RegistryContract, RegistryView,
};
use crate::roles::{AdminRole, RoleRefusal};

verus! {

/// A registration is accepted from whoever signs it, whatever is registered
/// already, if the valuation is not negative, there is a name and the type is
/// known; otherwise the first of these that fails is told.
pub proof fn law_registration_accepted(
    s: RegistryView,
    signed: Seq<Address>,
    issuer: Address,
    name: Seq<u8>,
    asset_type: Seq<u8>,
    valuation: i128,
)
    ensures
        ({
            let refusal = register_refusal(s, signed, issuer, name, asset_type, valuation);
            let ready = s.role.admin is Some && signed.contains(issuer);
            &&& refusal is None <==> ready && valuation >= 0 && name.len() >= 1 && type_named(
                asset_type,
            ) is Some
            &&& s.role.admin is None ==> refusal == Some(Abort::Error(Error::NotInitialized))
            &&& s.role.admin is Some && !signed.contains(issuer) ==> refusal == Some(
                Abort::Unsigned(issuer),
            )
            &&& ready && valuation < 0 ==> refusal == Some(Abort::Error(Error::InvalidValuation))
            &&& ready && valuation >= 0 && (name.len() == 0 || type_named(asset_type) is None)
                ==> refusal == Some(Abort::Error(Error::InvalidInput))
        }),
{
}

/// The bytes of a text are its characters, one by one.
pub proof fn law_texts_are_bytes(text: Seq<char>, i: int)
    ensures
        ascii(text).len() == text.len(),
        0 <= i < text.len() ==> ascii(text)[i] == text[i] as u8,
{
}

/// Six texts name an asset type, each its own, and no other text does.
pub proof fn law_six_asset_types(raw: Seq<u8>)
    ensures
        type_named(raw) == Some(AssetType::RealEstate) <==> raw == ascii("real_estate"@),
        type_named(raw) == Some(AssetType::Invoice) <==> raw == ascii("invoice"@),
        type_named(raw) == Some(AssetType::Commodity) <==> raw == ascii("commodity"@),
        type_named(raw) == Some(AssetType::Bond) <==> raw == ascii("bond"@),
        type_named(raw) == Some(AssetType::Equity) <==> raw == ascii("equity"@),
        type_named(raw) == Some(AssetType::Fund) <==> raw == ascii("fund"@),
        type_named(raw) is Some <==> raw == ascii("real_estate"@) || raw == ascii("invoice"@) || raw
            == ascii("commodity"@) || raw == ascii("bond"@) || raw == ascii("equity"@) || raw
            == ascii("fund"@),
{
    crate::registry_laws::law_asset_types_are_exact(raw, AssetType::RealEstate);
    crate::registry_laws::law_asset_types_are_exact(raw, AssetType::Invoice);
    crate::registry_laws::law_asset_types_are_exact(raw, AssetType::Commodity);
    crate::registry_laws::law_asset_types_are_exact(raw, AssetType::Bond);
    crate::registry_laws::law_asset_types_are_exact(raw, AssetType::Equity);
    crate::registry_laws::law_asset_types_are_exact(raw, AssetType::Fund);
}

/// A registration adds one entry, as it was given, one to the counts and the
/// valuation to the total, and puts the id at the end of two lists. Nothing
/// else changes.
pub proof fn law_registration_adds_one(
    s: RegistryView,
    entry: AssetEntryView,
    t: AssetType,
    other: u64,
    other_issuer: Address,
    other_type: AssetType,
)
    requires
        s.active_count < u64::MAX,
        i128::MIN <= s.total_valuation + entry.valuation <= i128::MAX,
    ensures
        ({
            let r = s.registered(entry, t);
            &&& r.role == s.role
            &&& r.counter == entry.id
            &&& r.active_count == s.active_count + 1
            &&& r.total_valuation == s.total_valuation + entry.valuation
            &&& r.assets.contains_key(entry.id)
            &&& r.assets[entry.id] == entry
            &&& other != entry.id ==> (r.assets.contains_key(other) <==> s.assets.contains_key(
                other,
            )) && r.assets[other] == s.assets[other]
            &&& ids_under(r.by_issuer, entry.issuer) == ids_under(s.by_issuer, entry.issuer).push(
                entry.id,
            )
            &&& ids_under(r.by_type, t) == ids_under(s.by_type, t).push(entry.id)
            &&& other_issuer != entry.issuer ==> ids_under(r.by_issuer, other_issuer) == ids_under(
                s.by_issuer,
                other_issuer,
            )
            &&& other_type != t ==> ids_under(r.by_type, other_type) == ids_under(
                s.by_type,
                other_type,
            )
        }),
{
}

/// The admin can deactivate every registered asset; otherwise the first of what
/// is missing is told.
pub proof fn law_deactivation_accepted(
    s: RegistryView,
    signed: Seq<Address>,
    admin: Address,
    id: u64,
)
    ensures
        ({
            let refusal = deactivate_refusal(s, signed, admin, id);
            let rest = s.total_valuation - s.assets[id].valuation;
            let may = s.role.admin == Some(admin) && signed.contains(admin);
            &&& refusal is None <==> may && s.assets.contains_key(id) && (s.assets[id].active
                ==> i128::MIN <= rest <= i128::MAX)
            &&& s.role.admin is None ==> refusal == Some(Abort::Error(Error::NotInitialized))
            &&& s.role.admin is Some && !signed.contains(admin) ==> refusal == Some(
                Abort::Unsigned(admin),
            )
            &&& s.role.admin is Some && signed.contains(admin) && s.role.admin != Some(admin)
                ==> refusal == Some(Abort::Error(Error::Unauthorized))
            &&& may && !s.assets.contains_key(id) ==> refusal == Some(
                Abort::Error(Error::AssetNotFound),
            )
            &&& may && s.assets.contains_key(id) && refusal is Some ==> refusal == Some(
                Abort::Error(Error::Overflow),
            )
        }),
{
}

/// A deactivation clears one mark and takes the asset out of the totals.
/// Nothing else changes: the asset stays on its lists.
pub proof fn law_deactivation_takes_one_out(s: RegistryView, id: u64, other: u64)
    requires
        i128::MIN <= s.total_valuation - s.assets[id].valuation <= i128::MAX,
    ensures
        ({
            let r = s.deactivated(id);
            &&& r.assets.contains_key(id)
            &&& !r.assets[id].active
            &&& r.assets[id].id == s.assets[id].id
            &&& r.assets[id].token_contract == s.assets[id].token_contract
            &&& r.assets[id].issuer == s.assets[id].issuer
            &&& r.assets[id].name == s.assets[id].name
            &&& r.assets[id].asset_type == s.assets[id].asset_type
            &&& r.assets[id].valuation == s.assets[id].valuation
            &&& r.assets[id].created_at == s.assets[id].created_at
            &&& s.active_count > 0 ==> r.active_count == s.active_count - 1
            &&& s.active_count == 0 ==> r.active_count == 0
            &&& r.total_valuation == s.total_valuation - s.assets[id].valuation
            &&& other != id ==> (r.assets.contains_key(other) <==> s.assets.contains_key(other))
                && r.assets[other] == s.assets[other]
            &&& r.role == s.role
            &&& r.counter == s.counter
            &&& r.by_issuer == s.by_issuer
            &&& r.by_type == s.by_type
        }),
{
}

/// A registry starts with nothing in it and nobody in charge. Initialization
/// gives it an admin; a change of role changes the role alone.
pub proof fn law_registry_starts_empty(
    s: RegistryView,
    admin: Address,
    role: AdminRole,
    id: u64,
    issuer: Address,
    t: AssetType,
)
    ensures
        RegistryView::blank().role.admin is None,
        RegistryView::blank().role.pending is None,
        RegistryView::blank().counter == 0,
        RegistryView::blank().active_count == 0,
        RegistryView::blank().total_valuation == 0,
        !RegistryView::blank().assets.contains_key(id),
        ids_under(RegistryView::blank().by_issuer, issuer).len() == 0,
        ids_under(RegistryView::blank().by_type, t).len() == 0,
        s.initialized(admin).role.admin == Some(admin),
        s.initialized(admin).role.pending == s.role.pending,
        s.initialized(admin).counter == 0,
        s.initialized(admin).active_count == 0,
        s.initialized(admin).total_valuation == 0,
        s.initialized(admin).assets == s.assets,
        s.initialized(admin).by_issuer == s.by_issuer,
        s.initialized(admin).by_type == s.by_type,
        s.with_role(role).role == role,
        s.with_role(role).counter == s.counter,
        s.with_role(role).active_count == s.active_count,
        s.with_role(role).total_valuation == s.total_valuation,
        s.with_role(role).assets == s.assets,
        s.with_role(role).by_issuer == s.by_issuer,
        s.with_role(role).by_type == s.by_type,
{
}

/// Looking up a list of ids gives the entry of each that is registered, in
/// order, and extends the lifetime of each of those: one id more gives one
/// entry more, or none.
pub proof fn law_lookups_go_id_by_id(assets: Map<u64, AssetEntryView>, ids: Seq<u64>, id: u64)
    ensures
        entries_of(assets, Seq::empty()).len() == 0,
        extensions_of(assets, Seq::empty()).len() == 0,
        assets.contains_key(id) ==> entries_of(assets, ids.push(id)) == entries_of(assets, ids).push(
            assets[id],
        ) && extensions_of(assets, ids.push(id)) == extensions_of(assets, ids).push(
            Extension::Entry(DataKey::Asset(id)),
        ),
        !assets.contains_key(id) ==> entries_of(assets, ids.push(id)) == entries_of(assets, ids)
            && extensions_of(assets, ids.push(id)) == extensions_of(assets, ids),
{
    assert(ids.push(id).drop_last() =~= ids);
}

/// A list that is on file has its lifetime extended when it is read, and no
/// other list has.
pub proof fn law_reading_a_list_extends_it<K>(index: Map<K, Seq<u64>>, k: K, key: DataKey)
    ensures
        index.contains_key(k) ==> index_extension(index, k, key) =~= seq![Extension::Entry(key)],
        !index.contains_key(k) ==> index_extension(index, k, key).len() == 0,
{
}

/// A page runs over the ids from its start on, one after the other, as many as
/// asked for and no further than the last id assigned. A start of 0 is 1.
pub proof fn law_pages_run_over_ids(start_id: u64, limit: u32, counter: u64, i: int)
    requires
        counter < u64::MAX,
    ensures
        ({
            let ids = id_range(page_start(start_id), page_end(start_id, limit, counter));
            let first = if start_id == 0 {
                1int
            } else {
                start_id as int
            };
            &&& ids.len() <= limit
            &&& first > counter ==> ids.len() == 0
            &&& first <= counter && first + limit > counter ==> ids.len() == counter - first + 1
            &&& first <= counter && first + limit <= counter ==> ids.len() == limit
            &&& 0 <= i < ids.len() ==> ids[i] == first + i
        }),
{
}

/// What is said of a registry is what it stores, entry for entry.
pub proof fn law_registry_is_seen_whole(
    c: RegistryContract,
    id: u64,
    issuer: Address,
    t: AssetType,
)
    ensures
        c@.role == c.role,
        c@.counter == c.counter,
        c@.active_count == c.active_count,
        c@.total_valuation == c.total_valuation,
        c@.assets.contains_key(id) <==> c.assets@.contains_key(id),
        c.assets@.contains_key(id) ==> {
            let e = c.assets@[id];
            let v = c@.assets[id];
            &&& v.id == e.id
            &&& v.token_contract == e.token_contract
            &&& v.issuer == e.issuer
            &&& v.name == e.name@
            &&& v.asset_type == e.asset_type@
            &&& v.valuation == e.valuation
            &&& v.created_at == e.created_at
            &&& v.active == e.active
        },
        c@.by_issuer.contains_key(issuer) <==> c.by_issuer@.contains_key(issuer),
        c.by_issuer@.contains_key(issuer) ==> c@.by_issuer[issuer] == c.by_issuer@[issuer]@,
        c@.by_type.contains_key(t) <==> c.by_type@.contains_key(t),
        c.by_type@.contains_key(t) ==> c@.by_type[t] == c.by_type@[t]@,
{
}

/// What is wrong with the role is told to callers under the same name.
pub proof fn law_registry_role_errors(who: Address)
    ensures
        role_abort(RoleRefusal::AlreadyInitialized) == Abort::Error(Error::AlreadyInitialized),
        role_abort(RoleRefusal::NotInitialized) == Abort::Error(Error::NotInitialized),
        role_abort(RoleRefusal::Unsigned(who)) == Abort::Unsigned(who),
        role_abort(RoleRefusal::Unauthorized) == Abort::Error(Error::Unauthorized),
        role_abort(RoleRefusal::NoPendingAdmin) == Abort::Error(Error::NoPendingAdmin),
{
}

/// Every error has a number of its own, which does not change.
pub proof fn law_registry_error_numbers(a: Error, b: Error)
    ensures
        error_code(a) == error_code(b) ==> a == b,
        1 <= error_code(a) <= 8,
        error_code(Error::AlreadyInitialized) == 1,
        error_code(Error::NotInitialized) == 2,
        error_code(Error::Unauthorized) == 3,
        error_code(Error::AssetNotFound) == 4,
        error_code(Error::InvalidValuation) == 5,
        error_code(Error::Overflow) == 6,
        error_code(Error::InvalidInput) == 7,
        error_code(Error::NoPendingAdmin) == 8,
{
}

} // verus!
