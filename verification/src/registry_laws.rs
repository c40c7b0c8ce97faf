//! What the registry promises across calls.
use vstd::prelude::*;

use crate::address::Address;
use crate::amounts::overflows;
use crate::index::ids_under;
use crate::registry::{
    active_number, active_value, ascii, asset_type_name, deactivate_refusal, entries_of, extensions_of, id_range,
    ids_of_issuer, ids_of_type, page_end, page_start, register_refusal,
    type_named, valid_entry, Abort, AssetEntryView, AssetType, Error, RegistryView,
};
use crate::roles::{admin_refusal, AdminRole};
use crate::table::agree;

verus! {

/// What is said of the ids up to `n` depends on their entries alone.
proof fn lemma_totals_frame(a: Map<u64, AssetEntryView>, b: Map<u64, AssetEntryView>, n: nat)
    requires
        n <= u64::MAX,
        forall|id: u64| 1 <= id <= n ==> #[trigger] a[id] == b[id],
    ensures
        active_value(a, n) == active_value(b, n),
        active_number(a, n) == active_number(b, n),
        forall|who: Address| #[trigger] ids_of_issuer(a, n, who) == ids_of_issuer(b, n, who),
        forall|t: AssetType| #[trigger] ids_of_type(a, n, t) == ids_of_type(b, n, t),
    decreases n,
{
    if n > 0 {
        lemma_totals_frame(a, b, (n - 1) as nat);
        assert(a[n as u64] == b[n as u64]);
        assert forall|who: Address| #[trigger]
            ids_of_issuer(a, n, who) == ids_of_issuer(b, n, who) by {
            assert(ids_of_issuer(a, (n - 1) as nat, who) == ids_of_issuer(b, (n - 1) as nat, who));
        }
        assert forall|t: AssetType| #[trigger] ids_of_type(a, n, t) == ids_of_type(b, n, t) by {
            assert(ids_of_type(a, (n - 1) as nat, t) == ids_of_type(b, (n - 1) as nat, t));
        }
    }
}

/// Deactivating an active asset takes its valuation and one count away, and
/// leaves it in every index.
proof fn lemma_deactivated_totals(a: Map<u64, AssetEntryView>, n: nat, id: u64)
    requires
        1 <= id <= n <= u64::MAX,
        a[id].active,
    ensures
        ({
            let b = a.insert(id, AssetEntryView { active: false, ..a[id] });
            &&& active_value(b, n) == active_value(a, n) - a[id].valuation
            &&& active_number(b, n) == active_number(a, n) - 1
            &&& forall|who: Address| #[trigger] ids_of_issuer(b, n, who) == ids_of_issuer(a, n, who)
            &&& forall|t: AssetType| #[trigger] ids_of_type(b, n, t) == ids_of_type(a, n, t)
        }),
    decreases n,
{
    let b = a.insert(id, AssetEntryView { active: false, ..a[id] });
    if id == n {
        lemma_totals_frame(a, b, (n - 1) as nat);
        assert forall|who: Address| #[trigger]
            ids_of_issuer(b, n, who) == ids_of_issuer(a, n, who) by {
            assert(ids_of_issuer(a, (n - 1) as nat, who) == ids_of_issuer(b, (n - 1) as nat, who));
        }
        assert forall|t: AssetType| #[trigger] ids_of_type(b, n, t) == ids_of_type(a, n, t) by {
            assert(ids_of_type(a, (n - 1) as nat, t) == ids_of_type(b, (n - 1) as nat, t));
        }
    } else {
        lemma_deactivated_totals(a, (n - 1) as nat, id);
        assert(b[n as u64] == a[n as u64]);
        assert forall|who: Address| #[trigger]
            ids_of_issuer(b, n, who) == ids_of_issuer(a, n, who) by {
            assert(ids_of_issuer(b, (n - 1) as nat, who) == ids_of_issuer(a, (n - 1) as nat, who));
        }
        assert forall|t: AssetType| #[trigger] ids_of_type(b, n, t) == ids_of_type(a, n, t) by {
            assert(ids_of_type(b, (n - 1) as nat, t) == ids_of_type(a, (n - 1) as nat, t));
        }
    }
}

/// Active assets are counted, and their valuations summed, from nothing up.
proof fn lemma_totals_grow(a: Map<u64, AssetEntryView>, m: nat, n: nat)
    requires
        m <= n <= u64::MAX,
        forall|id: u64| 1 <= id <= n ==> (#[trigger] a[id]).valuation >= 0,
    ensures
        0 <= active_value(a, m) <= active_value(a, n),
        active_number(a, m) <= active_number(a, n),
        active_number(a, n) <= n,
    decreases n,
{
    if n > 0 {
        assert(a[n as u64].valuation >= 0);
        if m < n {
            lemma_totals_grow(a, m, (n - 1) as nat);
        } else {
            lemma_totals_grow(a, (n - 1) as nat, (n - 1) as nat);
        }
    }
}

/// An active asset is part of the totals.
proof fn lemma_active_counts(a: Map<u64, AssetEntryView>, n: nat, id: u64)
    requires
        1 <= id <= n <= u64::MAX,
        a[id].active,
        forall|i: u64| 1 <= i <= n ==> (#[trigger] a[i]).valuation >= 0,
    ensures
        a[id].valuation <= active_value(a, n),
        active_number(a, n) >= 1,
{
    lemma_totals_grow(a, (id - 1) as nat, id as nat);
    lemma_totals_grow(a, id as nat, n);
    lemma_totals_grow(a, (id - 1) as nat, (id - 1) as nat);
}

/// A registry that is not yet initialized is in order.
pub proof fn law_blank_is_wf()
    ensures
        RegistryView::blank().wf(),
{
    let s = RegistryView::blank();
    assert forall|a: Address| #[trigger]
        ids_under(s.by_issuer, a) == ids_of_issuer(s.assets, s.counter as nat, a) by {}
    assert forall|t: AssetType| #[trigger]
        ids_under(s.by_type, t) == ids_of_type(s.assets, s.counter as nat, t) by {}
}

/// Initialization keeps a registry in order.
pub proof fn law_initialize_keeps_wf(s: RegistryView, admin: Address)
    requires
        s.wf(),
        s.role.admin is None,
    ensures
        s.initialized(admin).wf(),
{
    let t = s.initialized(admin);
    assert(s.counter == 0);
    assert forall|id: u64| #[trigger] t.assets.contains_key(id) <==> 1 <= id <= t.counter by {
        assert(s.assets.contains_key(id) <==> 1 <= id <= s.counter);
    }
    assert forall|a: Address| #[trigger]
        ids_under(t.by_issuer, a) == ids_of_issuer(t.assets, t.counter as nat, a) by {
        assert(ids_under(s.by_issuer, a) == ids_of_issuer(s.assets, s.counter as nat, a));
    }
    assert forall|k: AssetType| #[trigger]
        ids_under(t.by_type, k) == ids_of_type(t.assets, t.counter as nat, k) by {
        assert(ids_under(s.by_type, k) == ids_of_type(s.assets, s.counter as nat, k));
    }
}

/// A change of role keeps a registry in order, as long as an initialized
/// registry stays initialized.
pub proof fn law_role_change_keeps_wf(s: RegistryView, role: AdminRole)
    requires
        s.wf(),
        role.wf(),
        role.admin is Some,
    ensures
        s.with_role(role).wf(),
{
    let t = s.with_role(role);
    assert(t.assets == s.assets);
    assert forall|id: u64| #[trigger] t.assets.contains_key(id) <==> 1 <= id <= t.counter by {
        assert(s.assets.contains_key(id) <==> 1 <= id <= s.counter);
    }
    assert forall|id: u64| 1 <= id <= t.counter implies valid_entry(
        #[trigger] t.assets[id],
        id,
    ) by {
        assert(valid_entry(s.assets[id], id));
    }
    assert forall|a: Address| #[trigger]
        ids_under(t.by_issuer, a) == ids_of_issuer(t.assets, t.counter as nat, a) by {
        assert(ids_under(s.by_issuer, a) == ids_of_issuer(s.assets, s.counter as nat, a));
    }
    assert forall|k: AssetType| #[trigger]
        ids_under(t.by_type, k) == ids_of_type(t.assets, t.counter as nat, k) by {
        assert(ids_under(s.by_type, k) == ids_of_type(s.assets, s.counter as nat, k));
    }
}

/// Registration keeps a registry in order.
pub proof fn law_register_keeps_wf(s: RegistryView, entry: AssetEntryView, t: AssetType)
    requires
        s.wf(),
        s.role.admin is Some,
        s.counter < u64::MAX,
        entry.active,
        valid_entry(entry, (s.counter + 1) as u64),
        type_named(entry.asset_type) == Some(t),
        !overflows(s.total_valuation + entry.valuation),
    ensures
        s.registered(entry, t).wf(),
{
    let r = s.registered(entry, t);
    let n = s.counter as nat;
    assert forall|id: u64| 1 <= id <= n implies #[trigger] s.assets[id] == r.assets[id] by {}
    lemma_totals_frame(s.assets, r.assets, n);
    assert forall|id: u64| 1 <= id <= n implies (#[trigger] s.assets[id]).valuation >= 0 by {
        assert(valid_entry(s.assets[id], id));
    }
    lemma_totals_grow(s.assets, n, n);
    assert forall|id: u64| #[trigger] r.assets.contains_key(id) <==> 1 <= id <= r.counter by {
        assert(s.assets.contains_key(id) <==> 1 <= id <= s.counter);
    }
    assert forall|id: u64| 1 <= id <= r.counter implies valid_entry(
        #[trigger] r.assets[id],
        id,
    ) by {
        if id <= n {
            assert(valid_entry(s.assets[id], id));
        }
    }
    assert forall|a: Address| #[trigger]
        ids_under(r.by_issuer, a) == ids_of_issuer(r.assets, r.counter as nat, a) by {
        assert(ids_under(s.by_issuer, a) == ids_of_issuer(s.assets, n, a));
        assert(ids_of_issuer(s.assets, n, a) == ids_of_issuer(r.assets, n, a));
    }
    assert forall|k: AssetType| #[trigger]
        ids_under(r.by_type, k) == ids_of_type(r.assets, r.counter as nat, k) by {
        assert(ids_under(s.by_type, k) == ids_of_type(s.assets, n, k));
        assert(ids_of_type(s.assets, n, k) == ids_of_type(r.assets, n, k));
    }
}

/// Deactivation keeps a registry in order.
pub proof fn law_deactivate_keeps_wf(s: RegistryView, id: u64)
    requires
        s.wf(),
        s.assets.contains_key(id),
        s.assets[id].active,
    ensures
        s.deactivated(id).wf(),
{
    let r = s.deactivated(id);
    let n = s.counter as nat;
    assert forall|i: u64| 1 <= i <= n implies (#[trigger] s.assets[i]).valuation >= 0 by {
        assert(valid_entry(s.assets[i], i));
    }
    lemma_active_counts(s.assets, n, id);
    lemma_totals_grow(s.assets, n, n);
    lemma_deactivated_totals(s.assets, n, id);
    assert(valid_entry(s.assets[id], id));
    assert forall|i: u64| #[trigger] r.assets.contains_key(i) <==> 1 <= i <= r.counter by {
        assert(s.assets.contains_key(i) <==> 1 <= i <= s.counter);
    }
    assert forall|i: u64| 1 <= i <= r.counter implies valid_entry(#[trigger] r.assets[i], i) by {
        assert(valid_entry(s.assets[i], i));
    }
    assert forall|a: Address| #[trigger]
        ids_under(r.by_issuer, a) == ids_of_issuer(r.assets, r.counter as nat, a) by {
        assert(ids_under(s.by_issuer, a) == ids_of_issuer(s.assets, n, a));
    }
    assert forall|k: AssetType| #[trigger]
        ids_under(r.by_type, k) == ids_of_type(r.assets, r.counter as nat, k) by {
        assert(ids_under(s.by_type, k) == ids_of_type(s.assets, n, k));
    }
}

/// Ids count up and are never used twice: a registration files its entry under
/// an id that no asset had, and changes no other entry.
pub proof fn law_ids_are_fresh(s: RegistryView, entry: AssetEntryView, t: AssetType, other: u64)
    requires
        s.wf(),
        s.counter < u64::MAX,
        entry.id == s.counter + 1,
    ensures
        !s.assets.contains_key(entry.id),
        forall|id: u64| s.assets.contains_key(id) ==> id < entry.id,
        s.registered(entry, t).assets[entry.id] == entry,
        other != entry.id ==> {
            &&& s.registered(entry, t).assets.contains_key(other) == s.assets.contains_key(other)
            &&& s.registered(entry, t).assets[other] == s.assets[other]
        },
{
}

/// Deactivation is final and touches one entry: it clears the active mark,
/// keeps the rest of the entry and every other entry, and doing it again is
/// allowed and finds nothing to do.
pub proof fn law_deactivation_is_idempotent(
    s: RegistryView,
    signed: Seq<Address>,
    admin: Address,
    id: u64,
    other: u64,
)
    requires
        deactivate_refusal(s, signed, admin, id) is None,
        s.assets[id].active,
    ensures
        ({
            let r = s.deactivated(id);
            &&& deactivate_refusal(r, signed, admin, id) is None
            &&& r.assets[id] == (AssetEntryView { active: false, ..s.assets[id] })
            &&& r.assets.dom() =~= s.assets.dom()
            &&& other != id ==> r.assets[other] == s.assets[other]
            &&& r.counter == s.counter
            &&& r.by_issuer == s.by_issuer
            &&& r.by_type == s.by_type
        }),
{
}

/// In a registry in order a deactivation by the admin of a registered asset is
/// never refused: the totals cannot run out of range.
pub proof fn law_admin_can_deactivate(
    s: RegistryView,
    signed: Seq<Address>,
    admin: Address,
    id: u64,
)
    requires
        s.wf(),
        admin_refusal(s.role, signed, admin) is None,
    ensures
        deactivate_refusal(s, signed, admin, id) == if s.assets.contains_key(id) {
            None
        } else {
            Some(Abort::Error(Error::AssetNotFound))
        },
        s.assets.contains_key(id) && s.assets[id].active ==> {
            &&& s.deactivated(id).active_count == s.active_count - 1
            &&& s.deactivated(id).total_valuation == s.total_valuation - s.assets[id].valuation
        },
{
    if s.assets.contains_key(id) && s.assets[id].active {
        let n = s.counter as nat;
        assert forall|i: u64| 1 <= i <= n implies (#[trigger] s.assets[i]).valuation >= 0 by {
            assert(valid_entry(s.assets[i], i));
        }
        lemma_active_counts(s.assets, n, id);
        assert(valid_entry(s.assets[id], id));
    }
}

/// A registration that was accepted can be looked up: by id, and at the end of
/// the lists of its issuer and of its type.
pub proof fn law_registered_is_listed(s: RegistryView, entry: AssetEntryView, t: AssetType)
    ensures
        ({
            let r = s.registered(entry, t);
            &&& r.assets.contains_key(entry.id)
            &&& r.assets[entry.id] == entry
            &&& ids_under(r.by_issuer, entry.issuer) == ids_under(s.by_issuer, entry.issuer).push(
                entry.id,
            )
            &&& ids_under(r.by_type, t) == ids_under(s.by_type, t).push(entry.id)
            &&& forall|a: Address|
                a != entry.issuer ==> #[trigger] ids_under(r.by_issuer, a) == ids_under(
                    s.by_issuer,
                    a,
                )
            &&& forall|k: AssetType|
                k != t ==> #[trigger] ids_under(r.by_type, k) == ids_under(s.by_type, k)
        }),
{
}

proof fn lemma_issuer_ids(a: Map<u64, AssetEntryView>, n: nat, who: Address)
    requires
        n <= u64::MAX,
    ensures
        forall|i: int, j: int|
            0 <= i < j < ids_of_issuer(a, n, who).len() ==> ids_of_issuer(a, n, who)[i]
                < ids_of_issuer(a, n, who)[j],
        forall|i: int|
            0 <= i < ids_of_issuer(a, n, who).len() ==> {
                let id = #[trigger] ids_of_issuer(a, n, who)[i];
                1 <= id <= n && a[id].issuer == who
            },
        forall|id: u64|
            1 <= id <= n && a[id].issuer == who ==> #[trigger] ids_of_issuer(
                a,
                n,
                who,
            ).contains(id),
    decreases n,
{
    if n > 0 {
        let m = (n - 1) as nat;
        lemma_issuer_ids(a, m, who);
        let before = ids_of_issuer(a, m, who);
        let after = ids_of_issuer(a, n, who);
        assert forall|id: u64| 1 <= id <= n && a[id].issuer == who implies #[trigger]
            after.contains(id) by {
            if id == n {
                assert(after[after.len() - 1] == id);
            } else {
                assert(before.contains(id));
                let k = choose|k: int| 0 <= k < before.len() && before[k] == id;
                assert(after[k] == id);
            }
        }
    }
}

proof fn lemma_type_ids(a: Map<u64, AssetEntryView>, n: nat, t: AssetType)
    requires
        n <= u64::MAX,
    ensures
        forall|i: int, j: int|
            0 <= i < j < ids_of_type(a, n, t).len() ==> ids_of_type(a, n, t)[i] < ids_of_type(
                a,
                n,
                t,
            )[j],
        forall|i: int|
            0 <= i < ids_of_type(a, n, t).len() ==> {
                let id = #[trigger] ids_of_type(a, n, t)[i];
                1 <= id <= n && type_named(a[id].asset_type) == Some(t)
            },
        forall|id: u64|
            1 <= id <= n && type_named(a[id].asset_type) == Some(t) ==> #[trigger] ids_of_type(
                a,
                n,
                t,
            ).contains(id),
    decreases n,
{
    if n > 0 {
        let m = (n - 1) as nat;
        lemma_type_ids(a, m, t);
        let before = ids_of_type(a, m, t);
        let after = ids_of_type(a, n, t);
        assert forall|id: u64| 1 <= id <= n && type_named(a[id].asset_type) == Some(t) implies
            #[trigger] after.contains(id) by {
            if id == n {
                assert(after[after.len() - 1] == id);
            } else {
                assert(before.contains(id));
                let k = choose|k: int| 0 <= k < before.len() && before[k] == id;
                assert(after[k] == id);
            }
        }
    }
}

/// If all of `ids` are registered, looking them up gives one entry each.
proof fn lemma_all_entries(assets: Map<u64, AssetEntryView>, ids: Seq<u64>)
    requires
        forall|i: int| 0 <= i < ids.len() ==> assets.contains_key(#[trigger] ids[i]),
    ensures
        entries_of(assets, ids).len() == ids.len(),
        forall|i: int| 0 <= i < ids.len() ==> #[trigger] entries_of(assets, ids)[i] == assets[ids[i]],
    decreases ids.len(),
{
    if ids.len() > 0 {
        let front = ids.drop_last();
        assert forall|i: int| 0 <= i < front.len() implies assets.contains_key(
            #[trigger] front[i],
        ) by {
            assert(front[i] == ids[i]);
        }
        lemma_all_entries(assets, front);
        assert(assets.contains_key(ids[ids.len() - 1]));
        assert forall|i: int| 0 <= i < ids.len() implies #[trigger] entries_of(assets, ids)[i]
            == assets[ids[i]] by {
            if i < front.len() {
                assert(entries_of(assets, front)[i] == assets[front[i]]);
            }
        }
    }
}

/// The list of an issuer holds each of its assets once, active or not, with
/// increasing ids, and no other asset.
pub proof fn law_issuer_list_is_complete(s: RegistryView, issuer: Address)
    requires
        s.wf(),
    ensures
        ({
            let ids = ids_under(s.by_issuer, issuer);
            let entries = entries_of(s.assets, ids);
            &&& entries.len() == ids.len()
            &&& forall|i: int|
                0 <= i < ids.len() ==> #[trigger] entries[i] == s.assets[ids[i]] && entries[i].id
                    == ids[i] && entries[i].issuer == issuer
            &&& forall|i: int, j: int| 0 <= i < j < ids.len() ==> ids[i] < ids[j]
            &&& forall|id: u64|
                s.assets.contains_key(id) && s.assets[id].issuer == issuer ==> #[trigger]
                    ids.contains(id)
        }),
{
    let ids = ids_under(s.by_issuer, issuer);
    lemma_issuer_ids(s.assets, s.counter as nat, issuer);
    assert(ids == ids_of_issuer(s.assets, s.counter as nat, issuer));
    assert forall|i: int| 0 <= i < ids.len() implies s.assets.contains_key(#[trigger] ids[i]) by {}
    lemma_all_entries(s.assets, ids);
    let entries = entries_of(s.assets, ids);
    assert forall|i: int| 0 <= i < ids.len() implies #[trigger] entries[i] == s.assets[ids[i]]
        && entries[i].id == ids[i] && entries[i].issuer == issuer by {
        assert(1 <= ids[i] <= s.counter);
        assert(valid_entry(s.assets[ids[i]], ids[i]));
    }
}

/// The list of an asset type holds each of its assets once, active or not, with
/// increasing ids, and no other asset.
pub proof fn law_type_list_is_complete(s: RegistryView, t: AssetType)
    requires
        s.wf(),
    ensures
        ({
            let ids = ids_under(s.by_type, t);
            let entries = entries_of(s.assets, ids);
            &&& entries.len() == ids.len()
            &&& forall|i: int|
                0 <= i < ids.len() ==> #[trigger] entries[i] == s.assets[ids[i]] && entries[i].id
                    == ids[i] && type_named(entries[i].asset_type) == Some(t)
            &&& forall|i: int, j: int| 0 <= i < j < ids.len() ==> ids[i] < ids[j]
            &&& forall|id: u64|
                s.assets.contains_key(id) && type_named(s.assets[id].asset_type) == Some(t)
                    ==> #[trigger] ids.contains(id)
        }),
{
    let ids = ids_under(s.by_type, t);
    lemma_type_ids(s.assets, s.counter as nat, t);
    assert(ids == ids_of_type(s.assets, s.counter as nat, t));
    assert forall|i: int| 0 <= i < ids.len() implies s.assets.contains_key(#[trigger] ids[i]) by {}
    lemma_all_entries(s.assets, ids);
    let entries = entries_of(s.assets, ids);
    assert forall|i: int| 0 <= i < ids.len() implies #[trigger] entries[i] == s.assets[ids[i]]
        && entries[i].id == ids[i] && type_named(entries[i].asset_type) == Some(t) by {
        assert(1 <= ids[i] <= s.counter);
        assert(valid_entry(s.assets[ids[i]], ids[i]));
    }
}

/// The entries that a page shows.
pub open spec fn page(s: RegistryView, start_id: u64, limit: u32) -> Seq<AssetEntryView> {
    entries_of(s.assets, id_range(page_start(start_id), page_end(start_id, limit, s.counter)))
}

/// A page shows the entry of every assigned id in its range, in order, and
/// never more than `limit`.
pub proof fn law_page_contents(s: RegistryView, start_id: u64, limit: u32)
    requires
        s.wf(),
    ensures
        page(s, start_id, limit).len() == if page_start(start_id) < page_end(
            start_id,
            limit,
            s.counter,
        ) {
            page_end(start_id, limit, s.counter) - page_start(start_id)
        } else {
            0
        },
        page(s, start_id, limit).len() <= limit,
        forall|i: int|
            0 <= i < page(s, start_id, limit).len() ==> #[trigger] page(s, start_id, limit)[i]
                == s.assets[(page_start(start_id) + i) as u64],
{
    let ids = id_range(page_start(start_id), page_end(start_id, limit, s.counter));
    assert forall|i: int| 0 <= i < ids.len() implies s.assets.contains_key(#[trigger] ids[i]) by {
        assert(ids[i] == page_start(start_id) + i);
    }
    lemma_all_entries(s.assets, ids);
    assert forall|i: int| 0 <= i < page(s, start_id, limit).len() implies #[trigger] page(
        s,
        start_id,
        limit,
    )[i] == s.assets[(page_start(start_id) + i) as u64] by {
        assert(entries_of(s.assets, ids)[i] == s.assets[ids[i]]);
    }
}

/// Paging misses nothing and repeats nothing: a page, followed by the page that
/// begins `limit` ids later, is the page of both limits together.
pub proof fn law_pages_tile(s: RegistryView, start_id: u64, limit: u32, next_limit: u32)
    requires
        s.wf(),
        start_id >= 1,
        start_id + limit <= u64::MAX,
        limit + next_limit <= u32::MAX,
    ensures
        page(s, start_id, limit) + page(s, (start_id + limit) as u64, next_limit) == page(
            s,
            start_id,
            (limit + next_limit) as u32,
        ),
{
    let second = (start_id + limit) as u64;
    let whole = (limit + next_limit) as u32;
    law_page_contents(s, start_id, limit);
    law_page_contents(s, second, next_limit);
    law_page_contents(s, start_id, whole);
    let a = page(s, start_id, limit);
    let b = page(s, second, next_limit);
    let c = page(s, start_id, whole);
    assert((a + b).len() == c.len());
    assert forall|i: int| 0 <= i < c.len() implies (a + b)[i] == c[i] by {
        assert(c[i] == s.assets[(start_id + i) as u64]);
        if i < a.len() {
            assert(a[i] == s.assets[(start_id + i) as u64]);
        } else {
            assert(b[i - a.len()] == s.assets[(second + (i - a.len())) as u64]);
        }
    }
    assert(a + b =~= c);
}

/// How many of the entries are active.
pub open spec fn count_active(entries: Seq<AssetEntryView>) -> nat
    decreases entries.len(),
{
    if entries.len() == 0 {
        0
    } else {
        count_active(entries.drop_last()) + if entries.last().active {
            1nat
        } else {
            0
        }
    }
}

/// The summed valuation of the active ones among the entries.
pub open spec fn sum_active(entries: Seq<AssetEntryView>) -> int
    decreases entries.len(),
{
    if entries.len() == 0 {
        0
    } else {
        sum_active(entries.drop_last()) + if entries.last().active {
            entries.last().valuation as int
        } else {
            0
        }
    }
}

proof fn lemma_totals_of_range(assets: Map<u64, AssetEntryView>, n: nat)
    requires
        n <= u64::MAX,
        forall|id: u64| 1 <= id <= n ==> #[trigger] assets.contains_key(id),
    ensures
        entries_of(assets, id_range(1, n as int + 1)).len() == n,
        count_active(entries_of(assets, id_range(1, n as int + 1))) == active_number(assets, n),
        sum_active(entries_of(assets, id_range(1, n as int + 1))) == active_value(assets, n),
    decreases n,
{
    if n > 0 {
        lemma_totals_of_range(assets, (n - 1) as nat);
        let ids = id_range(1, n as int + 1);
        assert(ids.drop_last() =~= id_range(1, n as int));
        assert(ids.last() == n);
        assert(assets.contains_key(n as u64));
        let all = entries_of(assets, ids);
        assert(all.drop_last() =~= entries_of(assets, ids.drop_last()));
        assert(all.last() == assets[n as u64]);
    }
}

/// The reported totals are the totals of what is listed: the active count is
/// the number of active entries among all entries, and the TVL the sum of
/// their valuations. (One page shows all of up to `u32::MAX` assets.)
pub proof fn law_totals_match_listing(s: RegistryView)
    requires
        s.wf(),
        s.counter <= u32::MAX,
    ensures
        page(s, 0, u32::MAX).len() == s.counter,
        count_active(page(s, 0, u32::MAX)) == s.active_count,
        sum_active(page(s, 0, u32::MAX)) == s.total_valuation,
{
    assert forall|id: u64| 1 <= id <= s.counter implies #[trigger] s.assets.contains_key(id) by {}
    lemma_totals_of_range(s.assets, s.counter as nat);
    assert(page_end(0, u32::MAX, s.counter) == s.counter + 1);
}

/// The totals never leave their range: the TVL is not negative, and no more
/// assets are active than registered.
pub proof fn law_totals_are_bounded(s: RegistryView)
    requires
        s.wf(),
    ensures
        s.total_valuation >= 0,
        s.active_count <= s.counter,
{
    assert forall|i: u64| 1 <= i <= s.counter implies (#[trigger] s.assets[i]).valuation >= 0 by {
        assert(valid_entry(s.assets[i], i));
    }
    lemma_totals_grow(s.assets, s.counter as nat, s.counter as nat);
}

/// Asset types are compared byte for byte: a text is accepted exactly if it is
/// one of the six names.
pub proof fn law_asset_types_are_exact(raw: Seq<u8>, t: AssetType)
    ensures
        type_named(raw) == Some(t) <==> raw == ascii(asset_type_name(t)),
{
    reveal_strlit("real_estate");
    reveal_strlit("invoice");
    reveal_strlit("commodity");
    reveal_strlit("bond");
    reveal_strlit("equity");
    reveal_strlit("fund");
    let r = ascii(asset_type_name(AssetType::RealEstate));
    let i = ascii(asset_type_name(AssetType::Invoice));
    let c = ascii(asset_type_name(AssetType::Commodity));
    let b = ascii(asset_type_name(AssetType::Bond));
    let e = ascii(asset_type_name(AssetType::Equity));
    let f = ascii(asset_type_name(AssetType::Fund));
    assert(r.len() == 11 && i.len() == 7 && c.len() == 9 && b.len() == 4 && e.len() == 6
        && f.len() == 4);
    assert(b[0] == 'b' as u8 && f[0] == 'f' as u8);
}

/// Anyone who signs can register an asset of their own in an initialized
/// registry; no role is needed.
pub proof fn law_registration_is_open(
    s: RegistryView,
    signed: Seq<Address>,
    issuer: Address,
    name: Seq<u8>,
    asset_type: Seq<u8>,
    valuation: i128,
)
    requires
        s.role.admin is Some,
        signed.contains(issuer),
        valuation >= 0,
        name.len() > 0,
        type_named(asset_type) is Some,
    ensures
        register_refusal(s, signed, issuer, name, asset_type, valuation) is None,
{
}

/// A registration reads the role, the totals and the two lists that it extends,
/// and writes those lists, the totals and the entry of the new id. Whatever else
/// is in storage makes no difference and is not touched.
pub proof fn law_register_is_local(
    s: RegistryView,
    t: RegistryView,
    signed: Seq<Address>,
    entry: AssetEntryView,
    kind: AssetType,
    other_id: u64,
    other_issuer: Address,
    other_kind: AssetType,
)
    requires
        s.role == t.role,
        s.counter == t.counter,
        s.active_count == t.active_count,
        s.total_valuation == t.total_valuation,
        agree(s.by_issuer, t.by_issuer, entry.issuer),
        agree(s.by_type, t.by_type, kind),
    ensures
        register_refusal(s, signed, entry.issuer, entry.name, entry.asset_type, entry.valuation)
            == register_refusal(
            t,
            signed,
            entry.issuer,
            entry.name,
            entry.asset_type,
            entry.valuation,
        ),
        ({
            let a = s.registered(entry, kind);
            let b = t.registered(entry, kind);
            &&& a.role == s.role
            &&& a.counter == b.counter
            &&& a.active_count == b.active_count
            &&& a.total_valuation == b.total_valuation
            &&& agree(a.assets, b.assets, entry.id)
            &&& agree(a.by_issuer, b.by_issuer, entry.issuer)
            &&& agree(a.by_type, b.by_type, kind)
            &&& other_id != entry.id ==> agree(a.assets, s.assets, other_id)
            &&& other_issuer != entry.issuer ==> agree(a.by_issuer, s.by_issuer, other_issuer)
            &&& other_kind != kind ==> agree(a.by_type, s.by_type, other_kind)
        }),
{
}

/// A deactivation reads the role, the totals and its entry, and writes no other
/// entry.
pub proof fn law_deactivate_is_local(
    s: RegistryView,
    t: RegistryView,
    signed: Seq<Address>,
    admin: Address,
    id: u64,
    other_id: u64,
)
    requires
        s.role == t.role,
        s.active_count == t.active_count,
        s.total_valuation == t.total_valuation,
        agree(s.assets, t.assets, id),
    ensures
        deactivate_refusal(s, signed, admin, id) == deactivate_refusal(t, signed, admin, id),
        deactivate_refusal(s, signed, admin, id) is None ==> {
            let a = s.deactivated(id);
            let b = t.deactivated(id);
            &&& a.role == s.role
            &&& a.counter == s.counter
            &&& a.active_count == b.active_count
            &&& a.total_valuation == b.total_valuation
            &&& agree(a.assets, b.assets, id)
            &&& a.by_issuer == s.by_issuer
            &&& a.by_type == s.by_type
            &&& other_id != id ==> agree(a.assets, s.assets, other_id)
        },
{
}

/// Looking assets up depends on the entries of their ids alone.
pub proof fn law_listing_is_local(s: RegistryView, t: RegistryView, ids: Seq<u64>)
    requires
        forall|i: int| 0 <= i < ids.len() ==> agree(s.assets, t.assets, #[trigger] ids[i]),
    ensures
        entries_of(s.assets, ids) == entries_of(t.assets, ids),
        extensions_of(s.assets, ids) == extensions_of(t.assets, ids),
    decreases ids.len(),
{
    if ids.len() > 0 {
        let front = ids.drop_last();
        assert forall|i: int| 0 <= i < front.len() implies agree(
            s.assets,
            t.assets,
            #[trigger] front[i],
        ) by {
            assert(front[i] == ids[i]);
        }
        law_listing_is_local(s, t, front);
        assert(agree(s.assets, t.assets, ids[ids.len() - 1]));
    }
}

} // verus!
