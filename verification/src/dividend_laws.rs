//! What the dividend contract promises across calls.
use vstd::prelude::*;

use crate::address::Address;
use crate::amounts::overflows;
use crate::dividend::{
    balance_in, claim_refusal, claimable_outcome, claimed_by, claimed_shares, create_refusal,
    dists_of, extensions_of,
    ids_of_asset, holds, list_refusal, share, total_of, Abort, ClaimKey,
    DividendView, Distribution, Error,
};
use crate::index::ids_under;
use crate::roles::AdminRole;
use crate::table::agree;

verus! {

/// Whether no address is on a list twice.
pub open spec fn distinct(list: Seq<(Address, i128)>) -> bool {
    forall|i: int, j: int|
        0 <= i < j < list.len() ==> (#[trigger] list[i]).0 != (#[trigger] list[j]).0
}

/// Whether no balance on a list is negative.
pub open spec fn unsigned(list: Seq<(Address, i128)>) -> bool {
    forall|i: int| 0 <= i < list.len() ==> (#[trigger] list[i]).1 >= 0
}

/// A list is accepted exactly if no balance is negative, no address occurs
/// twice, and the balances sum up to an amount that is in range.
pub proof fn law_accepted_lists(list: Seq<(Address, i128)>)
    ensures
        list_refusal(list) is None <==> unsigned(list) && distinct(list) && !overflows(
            total_of(list),
        ),
        unsigned(list) ==> total_of(list) >= 0,
    decreases list.len(),
{
    if list.len() > 0 {
        let front = list.drop_last();
        let last = list.last();
        law_accepted_lists(front);
        if unsigned(list) {
            assert(list[list.len() - 1].1 >= 0);
            assert forall|i: int| 0 <= i < front.len() implies (#[trigger] front[i]).1 >= 0 by {
                assert(front[i] == list[i]);
            }
        }
        if distinct(list) {
            assert forall|i: int, j: int| 0 <= i < j < front.len() implies (#[trigger] front[i]).0
                != (#[trigger] front[j]).0 by {
                assert(front[i] == list[i] && front[j] == list[j]);
            }
            assert(!holds(front, last.0)) by {
                if holds(front, last.0) {
                    let k = choose|k: int| 0 <= k < front.len() && (#[trigger] front[k]).0
                        == last.0;
                    assert(list[k].0 == list[list.len() - 1].0);
                }
            }
        }
        if list_refusal(list) is None {
            assert forall|i: int| 0 <= i < list.len() implies (#[trigger] list[i]).1 >= 0 by {
                if i < front.len() {
                    assert(list[i] == front[i]);
                }
            }
            assert forall|i: int, j: int| 0 <= i < j < list.len() implies (#[trigger] list[i]).0
                != (#[trigger] list[j]).0 by {
                assert(list[i] == front[i]);
                if j < front.len() {
                    assert(list[j] == front[j]);
                }
            }
        }
    }
}

/// What a list with one entry more says of an address.
proof fn lemma_balance_of_front(list: Seq<(Address, i128)>, who: Address)
    requires
        list.len() > 0,
    ensures
        balance_in(list, who) == if holds(list.drop_last(), who) {
            balance_in(list.drop_last(), who)
        } else if list.last().0 == who {
            list.last().1
        } else {
            0
        },
    decreases list.len(),
{
    let front = list.drop_last();
    if list.len() == 1 {
        assert(front.len() == 0);
        assert(balance_in(list.drop_first(), who) == 0);
    } else if list[0].0 == who {
        assert(front[0].0 == who);
    } else {
        let rest = list.drop_first();
        assert(front[0] == list[0]);
        lemma_balance_of_front(rest, who);
        assert(rest.drop_last() =~= front.drop_first());
        assert(rest.last() == list.last());
        if holds(front, who) {
            let k = choose|k: int| 0 <= k < front.len() && (#[trigger] front[k]).0 == who;
            assert(front.drop_first()[k - 1].0 == who);
        }
        if holds(front.drop_first(), who) {
            let k = choose|k: int|
                0 <= k < front.drop_first().len() && (#[trigger] front.drop_first()[k]).0 == who;
            assert(front[k + 1].0 == who);
        }
    }
}

/// An address that is not on a list has no balance there.
proof fn lemma_no_balance(list: Seq<(Address, i128)>, who: Address)
    requires
        !holds(list, who),
    ensures
        balance_in(list, who) == 0,
    decreases list.len(),
{
    if list.len() > 0 {
        let rest = list.drop_first();
        assert(list[0].0 != who);
        assert(!holds(rest, who)) by {
            if holds(rest, who) {
                let k = choose|k: int| 0 <= k < rest.len() && (#[trigger] rest[k]).0 == who;
                assert(list[k + 1].0 == who);
            }
        }
        lemma_no_balance(rest, who);
    }
}

/// A claim by someone who is not on a list changes nothing of what those on it
/// have claimed.
proof fn lemma_claim_elsewhere(
    list: Seq<(Address, i128)>,
    claimed: Map<ClaimKey, bool>,
    id: u64,
    total: int,
    supply: int,
    k: ClaimKey,
)
    requires
        k.id != id || !holds(list, k.holder),
    ensures
        claimed_shares(list, claimed.insert(k, true), id, total, supply) == claimed_shares(
            list,
            claimed,
            id,
            total,
            supply,
        ),
    decreases list.len(),
{
    if list.len() > 0 {
        let front = list.drop_last();
        assert(list[list.len() - 1] == list.last());
        if holds(front, k.holder) {
            let i = choose|i: int| 0 <= i < front.len() && (#[trigger] front[i]).0 == k.holder;
            assert(list[i].0 == k.holder);
        }
        lemma_claim_elsewhere(front, claimed, id, total, supply, k);
    }
}

/// A first claim by someone on a list adds that holder's share.
proof fn lemma_claim_adds(
    list: Seq<(Address, i128)>,
    claimed: Map<ClaimKey, bool>,
    id: u64,
    total: int,
    supply: int,
    holder: Address,
)
    requires
        distinct(list),
        holds(list, holder),
        !(claimed.contains_key(ClaimKey { id, holder }) && claimed[ClaimKey { id, holder }]),
    ensures
        claimed_shares(list, claimed.insert(ClaimKey { id, holder }, true), id, total, supply)
            == claimed_shares(list, claimed, id, total, supply) + share(
            total,
            balance_in(list, holder) as int,
            supply,
        ),
    decreases list.len(),
{
    let k = ClaimKey { id, holder };
    let front = list.drop_last();
    let i = choose|i: int| 0 <= i < list.len() && (#[trigger] list[i]).0 == holder;
    lemma_balance_of_front(list, holder);
    if i == list.len() - 1 {
        assert(!holds(front, holder)) by {
            if holds(front, holder) {
                let j = choose|j: int| 0 <= j < front.len() && (#[trigger] front[j]).0 == holder;
                assert(list[j].0 == list[i].0);
            }
        }
        lemma_claim_elsewhere(front, claimed, id, total, supply, k);
    } else {
        assert(front[i].0 == holder);
        assert(list[list.len() - 1].0 != holder);
        assert(distinct(front)) by {
            assert forall|x: int, y: int| 0 <= x < y < front.len() implies (#[trigger] front[x]).0
                != (#[trigger] front[y]).0 by {
                assert(front[x] == list[x] && front[y] == list[y]);
            }
        }
        lemma_claim_adds(front, claimed, id, total, supply, holder);
    }
}

/// Shares never come to more than what they are shares of.
proof fn lemma_share_bound(total: int, balance: int, supply: int)
    by (nonlinear_arith)
    requires
        total >= 0,
        balance >= 0,
        supply > 0,
    ensures
        0 <= share(total, balance, supply),
        share(total, balance, supply) * supply <= total * balance,
        total * balance < share(total, balance, supply) * supply + supply,
{
}

/// The claimed shares of a list, scaled up, are within the scaled sum of its
/// balances.
proof fn lemma_claimed_bound(
    list: Seq<(Address, i128)>,
    claimed: Map<ClaimKey, bool>,
    id: u64,
    total: int,
    supply: int,
)
    requires
        unsigned(list),
        total >= 0,
        supply > 0,
    ensures
        claimed_shares(list, claimed, id, total, supply) >= 0,
        claimed_shares(list, claimed, id, total, supply) * supply <= total * total_of(list),
    decreases list.len(),
{
    if list.len() > 0 {
        let front = list.drop_last();
        assert forall|i: int| 0 <= i < front.len() implies (#[trigger] front[i]).1 >= 0 by {
            assert(front[i] == list[i]);
        }
        lemma_claimed_bound(front, claimed, id, total, supply);
        let b = list.last().1 as int;
        assert(list[list.len() - 1].1 >= 0);
        lemma_share_bound(total, b, supply);
        let x = claimed_shares(front, claimed, id, total, supply);
        let s = share(total, b, supply);
        assert((x + s) * supply == x * supply + s * supply) by (nonlinear_arith);
        assert(total * (total_of(front) + b) == total * total_of(front) + total * b)
            by (nonlinear_arith);
        assert(total * b >= 0) by (nonlinear_arith)
            requires
                total >= 0,
                b >= 0,
        ;
    }
}

/// The claimed shares of a list never exceed the amount that is shared out.
proof fn lemma_claimed_within(
    list: Seq<(Address, i128)>,
    claimed: Map<ClaimKey, bool>,
    id: u64,
    total: int,
)
    requires
        unsigned(list),
        total >= 0,
        total_of(list) > 0,
    ensures
        0 <= claimed_shares(list, claimed, id, total, total_of(list)) <= total,
{
    let supply = total_of(list);
    lemma_claimed_bound(list, claimed, id, total, supply);
    let x = claimed_shares(list, claimed, id, total, supply);
    assert(x <= total) by (nonlinear_arith)
        requires
            x * supply <= total * supply,
            supply > 0,
    ;
}

/// With no claim on file for a distribution, nothing of it is claimed.
proof fn lemma_nothing_claimed(
    list: Seq<(Address, i128)>,
    claimed: Map<ClaimKey, bool>,
    id: u64,
    total: int,
    supply: int,
)
    requires
        forall|k: ClaimKey| #[trigger] claimed.contains_key(k) ==> k.id != id,
    ensures
        claimed_shares(list, claimed, id, total, supply) == 0,
    decreases list.len(),
{
    if list.len() > 0 {
        lemma_nothing_claimed(list.drop_last(), claimed, id, total, supply);
        let k = ClaimKey { id, holder: list.last().0 };
        assert(claimed.contains_key(k) ==> k.id != id);
    }
}

/// The index up to `n` depends on the distributions up to `n` alone.
proof fn lemma_index_frame(
    a: Map<u64, Distribution>,
    b: Map<u64, Distribution>,
    n: nat,
    asset_token: Address,
)
    requires
        n <= u64::MAX,
        forall|id: u64|
            1 <= id <= n ==> (#[trigger] a[id]).asset_token == b[id].asset_token,
    ensures
        ids_of_asset(a, n, asset_token) == ids_of_asset(b, n, asset_token),
    decreases n,
{
    if n > 0 {
        lemma_index_frame(a, b, (n - 1) as nat, asset_token);
        assert(a[n as u64].asset_token == b[n as u64].asset_token);
    }
}

/// What a claim that is granted is about, in a contract in order.
proof fn lemma_granted(s: DividendView, id: u64, holder: Address)
    requires
        s.wf(),
        s.dists.contains_key(id),
        !claimed_by(s, id, holder),
        claimable_outcome(s, id, holder) is Ok,
        claimable_outcome(s, id, holder)->Ok_0 > 0,
    ensures
        ({
            let d = s.dists[id];
            let list = s.snapshot[id];
            let amount = claimable_outcome(s, id, holder)->Ok_0;
            let k = ClaimKey { id, holder };
            let after = claimed_shares(
                list,
                s.claimed.insert(k, true),
                id,
                d.total_amount as int,
                total_of(list),
            );
            &&& !d.completed
            &&& holds(list, holder)
            &&& unsigned(list)
            &&& distinct(list)
            &&& total_of(list) > 0
            &&& amount == share(d.total_amount as int, balance_in(list, holder) as int, total_of(list))
            &&& after == d.distributed + amount
            &&& d.distributed + amount <= d.total_amount
        }),
{
    assert(s.dist_wf(id));
    let d = s.dists[id];
    let list = s.snapshot[id];
    let basis = balance_in(list, holder);
    assert(!d.completed);
    law_accepted_lists(list);
    if !holds(list, holder) {
        lemma_no_balance(list, holder);
    }
    let total = d.total_amount as int;
    assert(total * basis >= 0) by (nonlinear_arith)
        requires
            total > 0,
            basis > 0,
    ;
    let product = total * basis;
    let supply = total_of(list);
    assert(0 <= product / supply <= product) by (nonlinear_arith)
        requires
            product >= 0,
            supply > 0,
    ;
    lemma_claim_adds(list, s.claimed, id, total, supply, holder);
    lemma_claimed_within(list, s.claimed.insert(ClaimKey { id, holder }, true), id, total);
}

/// A new contract is in order.
pub proof fn law_blank_is_wf()
    ensures
        DividendView::blank().wf(),
{
    let s = DividendView::blank();
    assert forall|a: Address| #[trigger]
        ids_under(s.asset_ids, a) == ids_of_asset(s.dists, s.counter as nat, a) by {}
}

/// Initialization keeps a contract in order.
pub proof fn law_initialize_keeps_wf(s: DividendView, admin: Address)
    requires
        s.wf(),
        s.role.admin is None,
    ensures
        s.initialized(admin).wf(),
{
    let t = s.initialized(admin);
    assert(t =~= s.with_role(s.role.held_by(admin)));
    law_role_change_keeps_wf(s, s.role.held_by(admin));
}

/// A change of role keeps a contract in order, as long as an initialized
/// contract keeps an administrator.
pub proof fn law_role_change_keeps_wf(s: DividendView, role: AdminRole)
    requires
        s.wf(),
        role.wf(),
        role.admin is Some,
    ensures
        s.with_role(role).wf(),
{
    let t = s.with_role(role);
    assert forall|id: u64| #[trigger] t.dists.contains_key(id) <==> 1 <= id <= t.counter by {
        assert(s.dists.contains_key(id) <==> 1 <= id <= s.counter);
    }
    assert forall|id: u64| 1 <= id <= t.counter implies #[trigger] t.dist_wf(id) by {
        assert(s.dist_wf(id));
    }
    assert forall|id: u64| #[trigger] t.snapshot.contains_key(id) implies t.dists.contains_key(
        id,
    ) by {
        assert(s.snapshot.contains_key(id));
    }
    assert forall|id: u64| #[trigger] t.supply.contains_key(id) implies t.dists.contains_key(id) by {
        assert(s.supply.contains_key(id));
    }
    assert forall|k: ClaimKey| #[trigger] t.claimed.contains_key(k) implies t.dists.contains_key(
        k.id,
    ) by {
        assert(s.claimed.contains_key(k));
    }
    assert forall|a: Address| #[trigger]
        ids_under(t.asset_ids, a) == ids_of_asset(t.dists, t.counter as nat, a) by {
        assert(ids_under(s.asset_ids, a) == ids_of_asset(s.dists, s.counter as nat, a));
    }
}

/// Creating a distribution keeps a contract in order.
pub proof fn law_create_keeps_wf(
    s: DividendView,
    dist: Distribution,
    eligible: Seq<(Address, i128)>,
)
    requires
        s.wf(),
        s.role.admin is Some,
        s.counter < u64::MAX,
        dist.id == s.counter + 1,
        dist.snapshot_ledger == dist.created_at,
        dist.total_amount > 0,
        dist.distributed == 0,
        !dist.completed,
        list_refusal(eligible) is None,
    ensures
        s.created(dist, eligible).wf(),
{
    let t = s.created(dist, eligible);
    let n = s.counter as nat;
    law_accepted_lists(eligible);
    assert(!s.dists.contains_key(dist.id));
    assert forall|id: u64| #[trigger] t.dists.contains_key(id) <==> 1 <= id <= t.counter by {
        assert(s.dists.contains_key(id) <==> 1 <= id <= s.counter);
    }
    assert forall|id: u64| 1 <= id <= t.counter implies #[trigger] t.dist_wf(id) by {
        if id == dist.id {
            assert forall|k: ClaimKey| #[trigger] s.claimed.contains_key(k) implies k.id != id by {
                assert(s.dists.contains_key(k.id));
            }
            lemma_nothing_claimed(
                eligible,
                s.claimed,
                id,
                dist.total_amount as int,
                total_of(eligible),
            );
        } else {
            assert(s.dist_wf(id));
        }
    }
    assert forall|id: u64| #[trigger] t.snapshot.contains_key(id) implies t.dists.contains_key(
        id,
    ) by {
        assert(id != dist.id ==> s.snapshot.contains_key(id));
    }
    assert forall|id: u64| #[trigger] t.supply.contains_key(id) implies t.dists.contains_key(id) by {
        assert(id != dist.id ==> s.supply.contains_key(id));
    }
    assert forall|k: ClaimKey| #[trigger] t.claimed.contains_key(k) implies t.dists.contains_key(
        k.id,
    ) by {
        assert(s.claimed.contains_key(k));
    }
    assert forall|a: Address| #[trigger]
        ids_under(t.asset_ids, a) == ids_of_asset(t.dists, t.counter as nat, a) by {
        assert(ids_under(s.asset_ids, a) == ids_of_asset(s.dists, n, a));
        assert forall|id: u64| 1 <= id <= n implies (#[trigger] s.dists[id]).asset_token
            == t.dists[id].asset_token by {}
        lemma_index_frame(s.dists, t.dists, n, a);
        assert(t.dists[dist.id] == dist);
        assert(t.counter as nat == n + 1);
    }
}

/// A claim keeps a contract in order.
pub proof fn law_claim_keeps_wf(s: DividendView, signed: Seq<Address>, id: u64, holder: Address)
    requires
        s.wf(),
        claim_refusal(s, signed, id, holder) is None,
    ensures
        s.paid(id, holder, claimable_outcome(s, id, holder)->Ok_0).wf(),
{
    let amount = claimable_outcome(s, id, holder)->Ok_0;
    let t = s.paid(id, holder, amount);
    let key = ClaimKey { id, holder };
    lemma_granted(s, id, holder);
    assert(s.dist_wf(id));
    assert forall|i: u64| #[trigger] t.dists.contains_key(i) <==> 1 <= i <= t.counter by {
        assert(s.dists.contains_key(i) <==> 1 <= i <= s.counter);
    }
    assert forall|i: u64| 1 <= i <= t.counter implies #[trigger] t.dist_wf(i) by {
        assert(s.dist_wf(i));
        if i != id {
            let d = s.dists[i];
            let list = s.snapshot[i];
            lemma_claim_elsewhere(
                list,
                s.claimed,
                i,
                d.total_amount as int,
                total_of(list),
                key,
            );
        }
    }
    assert forall|i: u64| #[trigger] t.snapshot.contains_key(i) implies t.dists.contains_key(i) by {
        assert(s.snapshot.contains_key(i));
    }
    assert forall|i: u64| #[trigger] t.supply.contains_key(i) implies t.dists.contains_key(i) by {
        assert(s.supply.contains_key(i));
    }
    assert forall|k: ClaimKey| #[trigger] t.claimed.contains_key(k) implies t.dists.contains_key(
        k.id,
    ) by {
        assert(k != key ==> s.claimed.contains_key(k));
    }
    assert forall|a: Address| #[trigger]
        ids_under(t.asset_ids, a) == ids_of_asset(t.dists, t.counter as nat, a) by {
        assert(ids_under(s.asset_ids, a) == ids_of_asset(s.dists, s.counter as nat, a));
        assert forall|i: u64| 1 <= i <= s.counter implies (#[trigger] s.dists[i]).asset_token
            == t.dists[i].asset_token by {}
        lemma_index_frame(s.dists, t.dists, s.counter as nat, a);
    }
}

/// What can be claimed is never negative, of whatever id and whoever asks; the
/// only way to fail is a product that is out of range.
pub proof fn law_claimable_is_not_negative(s: DividendView, id: u64, holder: Address)
    requires
        s.wf(),
    ensures
        match claimable_outcome(s, id, holder) {
            Ok(amount) => amount >= 0,
            Err(e) => e == Error::ArithmeticOverflow && overflows(
                s.dists[id].total_amount * balance_in(s.snapshot[id], holder),
            ),
        },
        !s.dists.contains_key(id) ==> claimable_outcome(s, id, holder) == Ok::<i128, Error>(0),
{
    if s.dists.contains_key(id) && s.snapshot.contains_key(id) {
        assert(s.dist_wf(id));
        let basis = balance_in(s.snapshot[id], holder) as int;
        let total = s.dists[id].total_amount as int;
        let supply = total_of(s.snapshot[id]);
        if basis > 0 && supply > 0 {
            assert(total * basis >= 0) by (nonlinear_arith)
                requires
                    total > 0,
                    basis > 0,
            ;
            let product = total * basis;
            assert(0 <= product / supply <= product) by (nonlinear_arith)
                requires
                    product >= 0,
                    supply > 0,
            ;
        }
    }
}

/// In a contract in order a signed claim is granted exactly if there is
/// something to claim: the escrow always covers it, and no sum runs out of
/// range.
pub proof fn law_escrow_covers_claims(
    s: DividendView,
    signed: Seq<Address>,
    id: u64,
    holder: Address,
)
    requires
        s.wf(),
        signed.contains(holder),
        s.dists.contains_key(id),
        !claimed_by(s, id, holder),
    ensures
        claim_refusal(s, signed, id, holder) == match claimable_outcome(s, id, holder) {
            Err(e) => Some(Abort::Error(e)),
            Ok(amount) => if amount == 0 {
                Some(Abort::Error(Error::NothingToClaim))
            } else {
                None
            },
        },
        claimable_outcome(s, id, holder) matches Ok(amount) ==> 0 <= amount
            && s.dists[id].distributed + amount <= s.dists[id].total_amount,
        claimable_outcome(s, id, holder) matches Err(e) ==> e == Error::ArithmeticOverflow,
{
    assert(s.dist_wf(id));
    law_claimable_is_not_negative(s, id, holder);
    if let Ok(amount) = claimable_outcome(s, id, holder) {
        if amount > 0 {
            lemma_granted(s, id, holder);
        }
    }
}

/// Each holder claims a distribution once: after a claim there is nothing left
/// to claim for that holder, and a second claim is refused.
pub proof fn law_claim_once(
    s: DividendView,
    signed: Seq<Address>,
    id: u64,
    holder: Address,
    amount: i128,
)
    requires
        s.dists.contains_key(id),
    ensures
        ({
            let t = s.paid(id, holder, amount);
            &&& claimed_by(t, id, holder)
            &&& claimable_outcome(t, id, holder) == Ok::<i128, Error>(0)
            &&& signed.contains(holder) ==> claim_refusal(t, signed, id, holder) == Some(
                Abort::Error(Error::AlreadyClaimed),
            )
        }),
{
}

/// A claim takes nothing from anybody else: what every other holder can claim
/// from the distribution, and what anybody can claim from every other one, is
/// the same after it, also after the claim that completes the distribution.
pub proof fn law_claim_leaves_others(
    s: DividendView,
    signed: Seq<Address>,
    id: u64,
    holder: Address,
    other_id: u64,
    other: Address,
)
    requires
        s.wf(),
        claim_refusal(s, signed, id, holder) is None,
        other_id != id || other != holder,
    ensures
        ({
            let t = s.paid(id, holder, claimable_outcome(s, id, holder)->Ok_0);
            &&& claimable_outcome(t, other_id, other) == claimable_outcome(s, other_id, other)
            &&& claimed_by(t, other_id, other) == claimed_by(s, other_id, other)
            &&& other_id != id ==> t.dists.contains_key(other_id) == s.dists.contains_key(other_id)
                && t.dists[other_id] == s.dists[other_id]
        }),
{
    let amount = claimable_outcome(s, id, holder)->Ok_0;
    let t = s.paid(id, holder, amount);
    if other_id == id {
        assert(s.dist_wf(id));
        lemma_granted(s, id, holder);
        let d = s.dists[id];
        let list = s.snapshot[id];
        let total = d.total_amount as int;
        let supply = total_of(list);
        let basis = balance_in(list, other) as int;
        if d.distributed + amount == total && !claimed_by(s, id, other) && basis > 0 {
            // Everything is paid out, so that the other's share is 0.
            let after = s.claimed.insert(ClaimKey { id, holder }, true);
            if !holds(list, other) {
                lemma_no_balance(list, other);
            }
            lemma_claim_adds(list, after, id, total, supply, other);
            lemma_claimed_within(list, after.insert(ClaimKey { id, holder: other }, true), id, total);
            lemma_share_bound(total, basis, supply);
            let rest = share(total, basis, supply);
            assert(rest == 0);
            assert(rest * supply == 0) by (nonlinear_arith)
                requires
                    rest == 0,
            ;
            assert(total * basis >= 0) by (nonlinear_arith)
                requires
                    total > 0,
                    basis > 0,
            ;
            assert(total * basis < supply);
        }
    }
}

/// A new distribution takes nothing from the others: it gets an id that none
/// had, and leaves every other distribution and every claim on it as it was.
pub proof fn law_create_leaves_others(
    s: DividendView,
    dist: Distribution,
    eligible: Seq<(Address, i128)>,
    other_id: u64,
    holder: Address,
)
    requires
        s.wf(),
        s.counter < u64::MAX,
        dist.id == s.counter + 1,
        other_id != dist.id,
    ensures
        !s.dists.contains_key(dist.id),
        ({
            let t = s.created(dist, eligible);
            &&& t.dists.contains_key(other_id) == s.dists.contains_key(other_id)
            &&& t.dists[other_id] == s.dists[other_id]
            &&& claimable_outcome(t, other_id, holder) == claimable_outcome(s, other_id, holder)
            &&& claimed_by(t, other_id, holder) == claimed_by(s, other_id, holder)
        }),
{
}

/// What a new distribution offers: to everybody on the list the share that the
/// balance there gives, to everybody else nothing. Nothing but the list and
/// the total amount counts.
pub proof fn law_created_shares(
    s: DividendView,
    dist: Distribution,
    eligible: Seq<(Address, i128)>,
    holder: Address,
)
    requires
        s.wf(),
        s.counter < u64::MAX,
        dist.id == s.counter + 1,
        dist.total_amount > 0,
        list_refusal(eligible) is None,
    ensures
        ({
            let t = s.created(dist, eligible);
            let basis = balance_in(eligible, holder) as int;
            &&& !holds(eligible, holder) ==> basis == 0
            &&& claimable_outcome(t, dist.id, holder) == if basis == 0 {
                Ok::<i128, Error>(0)
            } else if dist.total_amount * basis > i128::MAX {
                Err(Error::ArithmeticOverflow)
            } else {
                Ok(share(dist.total_amount as int, basis, total_of(eligible)) as i128)
            }
        }),
{
    let t = s.created(dist, eligible);
    law_accepted_lists(eligible);
    let basis = balance_in(eligible, holder) as int;
    let total = dist.total_amount as int;
    assert(!claimed_by(s, dist.id, holder)) by {
        let k = ClaimKey { id: dist.id, holder };
        assert(s.claimed.contains_key(k) ==> s.dists.contains_key(k.id));
    }
    lemma_balance_within(eligible, holder);
    if !holds(eligible, holder) {
        lemma_no_balance(eligible, holder);
    }
    assert(total * basis >= 0) by (nonlinear_arith)
        requires
            total > 0,
            basis >= 0,
    ;
}

/// No balance on an accepted list is more than the sum of the list.
proof fn lemma_balance_within(list: Seq<(Address, i128)>, who: Address)
    requires
        unsigned(list),
    ensures
        0 <= balance_in(list, who) <= total_of(list),
    decreases list.len(),
{
    if list.len() > 0 {
        let front = list.drop_last();
        assert forall|i: int| 0 <= i < front.len() implies (#[trigger] front[i]).1 >= 0 by {
            assert(front[i] == list[i]);
        }
        lemma_balance_within(front, who);
        lemma_balance_of_front(list, who);
        assert(list[list.len() - 1].1 >= 0);
    }
}

/// The summed shares of everybody on a list.
pub open spec fn all_shares(list: Seq<(Address, i128)>, total: int, supply: int) -> int
    decreases list.len(),
{
    if list.len() == 0 {
        0
    } else {
        all_shares(list.drop_last(), total, supply) + share(total, list.last().1 as int, supply)
    }
}

proof fn lemma_all_shares(list: Seq<(Address, i128)>, total: int, supply: int)
    requires
        unsigned(list),
        total >= 0,
        supply > 0,
    ensures
        all_shares(list, total, supply) * supply <= total * total_of(list),
        total * total_of(list) <= all_shares(list, total, supply) * supply + list.len() * (supply
            - 1),
    decreases list.len(),
{
    if list.len() > 0 {
        let front = list.drop_last();
        assert forall|i: int| 0 <= i < front.len() implies (#[trigger] front[i]).1 >= 0 by {
            assert(front[i] == list[i]);
        }
        lemma_all_shares(front, total, supply);
        let b = list.last().1 as int;
        assert(list[list.len() - 1].1 >= 0);
        lemma_share_bound(total, b, supply);
        let x = all_shares(front, total, supply);
        let y = share(total, b, supply);
        let n = front.len() as int;
        assert((x + y) * supply == x * supply + y * supply) by (nonlinear_arith);
        assert(total * (total_of(front) + b) == total * total_of(front) + total * b)
            by (nonlinear_arith);
        assert((n + 1) * (supply - 1) == n * (supply - 1) + (supply - 1)) by (nonlinear_arith);
        assert(list.len() == n + 1);
    }
}

/// All shares together never exceed the total amount, and rounding leaves less
/// than one unit per holder in escrow.
pub proof fn law_shares_fit(list: Seq<(Address, i128)>, total: int)
    requires
        list_refusal(list) is None,
        total >= 0,
        total_of(list) > 0,
    ensures
        all_shares(list, total, total_of(list)) <= total,
        total - all_shares(list, total, total_of(list)) < list.len(),
{
    law_accepted_lists(list);
    let supply = total_of(list);
    lemma_all_shares(list, total, supply);
    let x = all_shares(list, total, supply);
    let n = list.len() as int;
    assert(n > 0);
    assert(x <= total) by (nonlinear_arith)
        requires
            x * supply <= total * supply,
            supply > 0,
    ;
    assert(total - x < n) by (nonlinear_arith)
        requires
            total * supply <= x * supply + n * (supply - 1),
            supply > 0,
            n > 0,
    ;
}

/// A larger balance never has the smaller share, equal balances have equal
/// shares, and one who holds everything gets everything.
pub proof fn law_shares_are_fair(total: int, balance: int, larger: int, supply: int)
    requires
        total >= 0,
        0 <= balance <= larger <= supply,
        supply > 0,
    ensures
        0 <= share(total, balance, supply) <= share(total, larger, supply) <= total,
        share(total, supply, supply) == total,
        share(total, 0, supply) == 0,
{
    lemma_share_bound(total, balance, supply);
    lemma_share_bound(total, larger, supply);
    let x = share(total, balance, supply);
    let y = share(total, larger, supply);
    assert(total * balance <= total * larger) by (nonlinear_arith)
        requires
            total >= 0,
            balance <= larger,
    ;
    assert(x <= y) by (nonlinear_arith)
        requires
            x * supply <= total * balance,
            total * balance <= total * larger,
            total * larger < y * supply + supply,
            supply > 0,
    ;
    assert(y <= total) by (nonlinear_arith)
        requires
            y * supply <= total * larger,
            total >= 0,
            larger <= supply,
            supply > 0,
    ;
    assert(total * supply / supply == total) by (nonlinear_arith)
        requires
            supply > 0,
    ;
    assert(total * 0 / supply == 0) by (nonlinear_arith)
        requires
            supply > 0,
    ;
}

/// A completed distribution has paid out exactly its total amount, and nobody
/// can claim anything more from it.
pub proof fn law_completed_is_paid_out(s: DividendView, id: u64, holder: Address)
    requires
        s.wf(),
        s.dists.contains_key(id),
    ensures
        s.dists[id].completed <==> s.dists[id].distributed == s.dists[id].total_amount,
        s.dists[id].completed ==> claimable_outcome(s, id, holder) == Ok::<i128, Error>(0),
{
    assert(s.dist_wf(id));
}

proof fn lemma_asset_ids(dists: Map<u64, Distribution>, n: nat, asset_token: Address)
    requires
        n <= u64::MAX,
    ensures
        forall|i: int, j: int|
            0 <= i < j < ids_of_asset(dists, n, asset_token).len() ==> ids_of_asset(
                dists,
                n,
                asset_token,
            )[i] < ids_of_asset(dists, n, asset_token)[j],
        forall|i: int|
            0 <= i < ids_of_asset(dists, n, asset_token).len() ==> {
                let id = #[trigger] ids_of_asset(dists, n, asset_token)[i];
                1 <= id <= n && dists[id].asset_token == asset_token
            },
        forall|id: u64|
            1 <= id <= n && dists[id].asset_token == asset_token ==> #[trigger] ids_of_asset(
                dists,
                n,
                asset_token,
            ).contains(id),
    decreases n,
{
    if n > 0 {
        let m = (n - 1) as nat;
        lemma_asset_ids(dists, m, asset_token);
        let before = ids_of_asset(dists, m, asset_token);
        let after = ids_of_asset(dists, n, asset_token);
        assert forall|id: u64| 1 <= id <= n && dists[id].asset_token == asset_token implies
            #[trigger] after.contains(id) by {
            if id == n {
                assert(after[after.len() - 1] == id);
            } else {
                assert(before.contains(id));
                let k = choose|k: int| 0 <= k < before.len() && before[k] == id;
                assert(after[k] == id);
            }
        }
    }
}

/// If all of `ids` are assigned, looking them up gives one distribution each.
proof fn lemma_all_dists(dists: Map<u64, Distribution>, ids: Seq<u64>)
    requires
        forall|i: int| 0 <= i < ids.len() ==> dists.contains_key(#[trigger] ids[i]),
    ensures
        dists_of(dists, ids).len() == ids.len(),
        forall|i: int| 0 <= i < ids.len() ==> #[trigger] dists_of(dists, ids)[i] == dists[ids[i]],
    decreases ids.len(),
{
    if ids.len() > 0 {
        let front = ids.drop_last();
        assert forall|i: int| 0 <= i < front.len() implies dists.contains_key(
            #[trigger] front[i],
        ) by {
            assert(front[i] == ids[i]);
        }
        lemma_all_dists(dists, front);
        assert(dists.contains_key(ids[ids.len() - 1]));
        assert forall|i: int| 0 <= i < ids.len() implies #[trigger] dists_of(dists, ids)[i]
            == dists[ids[i]] by {
            if i < front.len() {
                assert(dists_of(dists, front)[i] == dists[front[i]]);
            }
        }
    }
}

/// The list of an asset token holds each of its distributions once, oldest
/// first, completed or not, and no other distribution.
pub proof fn law_asset_list_is_complete(s: DividendView, asset_token: Address)
    requires
        s.wf(),
    ensures
        ({
            let ids = ids_under(s.asset_ids, asset_token);
            let dists = dists_of(s.dists, ids);
            &&& dists.len() == ids.len()
            &&& forall|i: int|
                0 <= i < ids.len() ==> #[trigger] dists[i] == s.dists[ids[i]] && dists[i].id
                    == ids[i] && dists[i].asset_token == asset_token
            &&& forall|i: int, j: int| 0 <= i < j < ids.len() ==> ids[i] < ids[j]
            &&& forall|id: u64|
                s.dists.contains_key(id) && s.dists[id].asset_token == asset_token ==> #[trigger]
                    ids.contains(id)
        }),
{
    let ids = ids_under(s.asset_ids, asset_token);
    lemma_asset_ids(s.dists, s.counter as nat, asset_token);
    assert(ids == ids_of_asset(s.dists, s.counter as nat, asset_token));
    assert forall|i: int| 0 <= i < ids.len() implies s.dists.contains_key(#[trigger] ids[i]) by {}
    lemma_all_dists(s.dists, ids);
    let dists = dists_of(s.dists, ids);
    assert forall|i: int| 0 <= i < ids.len() implies #[trigger] dists[i] == s.dists[ids[i]]
        && dists[i].id == ids[i] && dists[i].asset_token == asset_token by {
        assert(1 <= ids[i] <= s.counter);
        assert(s.dist_wf(ids[i]));
    }
}

proof fn lemma_everybody_claimed(
    list: Seq<(Address, i128)>,
    claimed: Map<ClaimKey, bool>,
    id: u64,
    total: int,
    supply: int,
)
    requires
        forall|i: int|
            0 <= i < list.len() ==> {
                let k = ClaimKey { id, holder: (#[trigger] list[i]).0 };
                claimed.contains_key(k) && claimed[k] || share(total, list[i].1 as int, supply) == 0
            },
    ensures
        claimed_shares(list, claimed, id, total, supply) == all_shares(list, total, supply),
    decreases list.len(),
{
    if list.len() > 0 {
        let front = list.drop_last();
        assert forall|i: int| 0 <= i < front.len() implies {
            let k = ClaimKey { id, holder: (#[trigger] front[i]).0 };
            claimed.contains_key(k) && claimed[k] || share(total, front[i].1 as int, supply) == 0
        } by {
            assert(front[i] == list[i]);
        }
        lemma_everybody_claimed(front, claimed, id, total, supply);
        assert(list[list.len() - 1] == list.last());
    }
}

/// Nothing is stranded but what rounding leaves: once everybody with a share
/// has claimed it, all shares are paid out, and less than one unit per holder
/// is left of the total amount.
pub proof fn law_everybody_is_paid(s: DividendView, id: u64)
    requires
        s.wf(),
        s.dists.contains_key(id),
        !s.dists[id].completed,
        total_of(s.snapshot[id]) > 0,
        forall|i: int|
            0 <= i < s.snapshot[id].len() ==> claimed_by(s, id, (#[trigger] s.snapshot[id][i]).0)
                || share(
                s.dists[id].total_amount as int,
                s.snapshot[id][i].1 as int,
                total_of(s.snapshot[id]),
            ) == 0,
    ensures
        ({
            let d = s.dists[id];
            let list = s.snapshot[id];
            &&& d.distributed == all_shares(list, d.total_amount as int, total_of(list))
            &&& d.total_amount - d.distributed < list.len()
        }),
{
    assert(s.dist_wf(id));
    let d = s.dists[id];
    let list = s.snapshot[id];
    let total = d.total_amount as int;
    let supply = total_of(list);
    assert forall|i: int| 0 <= i < list.len() implies {
        let k = ClaimKey { id, holder: (#[trigger] list[i]).0 };
        s.claimed.contains_key(k) && s.claimed[k] || share(total, list[i].1 as int, supply) == 0
    } by {
        assert(claimed_by(s, id, list[i].0) || share(total, list[i].1 as int, supply) == 0);
    }
    lemma_everybody_claimed(list, s.claimed, id, total, supply);
    law_shares_fit(list, total);
}

/// What the distributions up to `n` still owe in a payment token.
pub open spec fn owed(dists: Map<u64, Distribution>, n: nat, token: Address) -> int
    decreases n,
{
    if n == 0 {
        0
    } else {
        let d = dists[n as u64];
        owed(dists, (n - 1) as nat, token) + if d.payment_token == token {
            d.total_amount - d.distributed
        } else {
            0
        }
    }
}

proof fn lemma_owed_frame(
    a: Map<u64, Distribution>,
    b: Map<u64, Distribution>,
    n: nat,
    token: Address,
)
    requires
        n <= u64::MAX,
        forall|id: u64| 1 <= id <= n ==> #[trigger] a[id] == b[id],
    ensures
        owed(a, n, token) == owed(b, n, token),
    decreases n,
{
    if n > 0 {
        lemma_owed_frame(a, b, (n - 1) as nat, token);
        assert(a[n as u64] == b[n as u64]);
    }
}

proof fn lemma_owed_update(
    a: Map<u64, Distribution>,
    n: nat,
    id: u64,
    d: Distribution,
    token: Address,
)
    requires
        1 <= id <= n <= u64::MAX,
        d.payment_token == a[id].payment_token,
        d.total_amount == a[id].total_amount,
    ensures
        owed(a.insert(id, d), n, token) == owed(a, n, token) - if d.payment_token == token {
            d.distributed - a[id].distributed
        } else {
            0
        },
    decreases n,
{
    let b = a.insert(id, d);
    if n == id {
        assert forall|i: u64| 1 <= i <= n - 1 implies #[trigger] a[i] == b[i] by {}
        lemma_owed_frame(a, b, (n - 1) as nat, token);
    } else {
        lemma_owed_update(a, (n - 1) as nat, id, d, token);
        assert(a[n as u64] == b[n as u64]);
    }
}

proof fn lemma_owed_bound(s: DividendView, n: nat, token: Address)
    requires
        s.wf(),
        n <= s.counter,
    ensures
        owed(s.dists, n, token) >= 0,
    decreases n,
{
    if n > 0 {
        lemma_owed_bound(s, (n - 1) as nat, token);
        assert(s.dist_wf(n as u64));
    }
}

/// The escrow balances: what is still owed in a token is never negative, grows
/// by what a new distribution pays in and shrinks by what a claim pays out. A
/// contract that holds what it owes goes on doing so.
pub proof fn law_escrow_balances(
    s: DividendView,
    signed: Seq<Address>,
    dist: Distribution,
    eligible: Seq<(Address, i128)>,
    id: u64,
    holder: Address,
    token: Address,
)
    requires
        s.wf(),
    ensures
        owed(s.dists, s.counter as nat, token) >= 0,
        s.counter < u64::MAX && dist.id == s.counter + 1 && dist.distributed == 0 ==> {
            let t = s.created(dist, eligible);
            owed(t.dists, t.counter as nat, token) == owed(s.dists, s.counter as nat, token) + if
                dist.payment_token == token {
                dist.total_amount as int
            } else {
                0
            }
        },
        claim_refusal(s, signed, id, holder) is None ==> {
            let amount = claimable_outcome(s, id, holder)->Ok_0;
            let t = s.paid(id, holder, amount);
            owed(t.dists, t.counter as nat, token) == owed(s.dists, s.counter as nat, token) - if
                s.dists[id].payment_token == token {
                amount as int
            } else {
                0
            }
        },
{
    let n = s.counter as nat;
    lemma_owed_bound(s, n, token);
    if s.counter < u64::MAX && dist.id == s.counter + 1 {
        let t = s.created(dist, eligible);
        assert forall|i: u64| 1 <= i <= n implies #[trigger] s.dists[i] == t.dists[i] by {}
        lemma_owed_frame(s.dists, t.dists, n, token);
    }
    if claim_refusal(s, signed, id, holder) is None {
        let amount = claimable_outcome(s, id, holder)->Ok_0;
        let t = s.paid(id, holder, amount);
        assert(s.dists.contains_key(id));
        lemma_owed_update(s.dists, n, id, t.dists[id], token);
        assert(t.dists == s.dists.insert(id, t.dists[id]));
    }
}

/// Creating a distribution reads the role, the counter and the list of the
/// asset token, and writes the entries of the new id, that list and the counter.
/// Whatever else is in storage makes no difference and is not touched.
pub proof fn law_create_is_local(
    s: DividendView,
    t: DividendView,
    signed: Seq<Address>,
    admin: Address,
    dist: Distribution,
    eligible: Seq<(Address, i128)>,
    supply: Option<i128>,
    other_id: u64,
    other: Address,
)
    requires
        s.role == t.role,
        s.counter == t.counter,
        agree(s.asset_ids, t.asset_ids, dist.asset_token),
    ensures
        create_refusal(s, signed, admin, dist.asset_token, dist.total_amount, eligible, supply)
            == create_refusal(
            t,
            signed,
            admin,
            dist.asset_token,
            dist.total_amount,
            eligible,
            supply,
        ),
        ({
            let a = s.created(dist, eligible);
            let b = t.created(dist, eligible);
            &&& a.role == s.role
            &&& a.counter == b.counter
            &&& agree(a.dists, b.dists, dist.id)
            &&& agree(a.supply, b.supply, dist.id)
            &&& agree(a.snapshot, b.snapshot, dist.id)
            &&& agree(a.asset_ids, b.asset_ids, dist.asset_token)
            &&& a.claimed == s.claimed
            &&& other_id != dist.id ==> agree(a.dists, s.dists, other_id) && agree(
                a.supply,
                s.supply,
                other_id,
            ) && agree(a.snapshot, s.snapshot, other_id)
            &&& other != dist.asset_token ==> agree(a.asset_ids, s.asset_ids, other)
        }),
{
}

/// A claim reads the entries of its distribution and its own mark, and writes
/// no others. Whatever else is in storage makes no difference and is not
/// touched.
pub proof fn law_claim_is_local(
    s: DividendView,
    t: DividendView,
    signed: Seq<Address>,
    id: u64,
    holder: Address,
    other_id: u64,
    other: ClaimKey,
)
    requires
        agree(s.dists, t.dists, id),
        agree(s.supply, t.supply, id),
        agree(s.snapshot, t.snapshot, id),
        agree(s.claimed, t.claimed, ClaimKey { id, holder }),
    ensures
        claimable_outcome(s, id, holder) == claimable_outcome(t, id, holder),
        claim_refusal(s, signed, id, holder) == claim_refusal(t, signed, id, holder),
        claim_refusal(s, signed, id, holder) is None ==> {
            let amount = claimable_outcome(s, id, holder)->Ok_0;
            let a = s.paid(id, holder, amount);
            let b = t.paid(id, holder, amount);
            &&& agree(a.dists, b.dists, id)
            &&& agree(a.supply, b.supply, id)
            &&& agree(a.snapshot, b.snapshot, id)
            &&& agree(a.claimed, b.claimed, ClaimKey { id, holder })
            &&& a.role == s.role
            &&& a.counter == s.counter
            &&& a.asset_ids == s.asset_ids
            &&& other_id != id ==> agree(a.dists, s.dists, other_id) && agree(
                a.supply,
                s.supply,
                other_id,
            ) && agree(a.snapshot, s.snapshot, other_id)
            &&& other != (ClaimKey { id, holder }) ==> agree(a.claimed, s.claimed, other)
        },
{
}

/// Looking distributions up depends on the entries of their ids alone.
pub proof fn law_listing_is_local(s: DividendView, t: DividendView, ids: Seq<u64>)
    requires
        forall|i: int| 0 <= i < ids.len() ==> agree(s.dists, t.dists, #[trigger] ids[i]),
    ensures
        dists_of(s.dists, ids) == dists_of(t.dists, ids),
        extensions_of(s.dists, ids) == extensions_of(t.dists, ids),
    decreases ids.len(),
{
    if ids.len() > 0 {
        let front = ids.drop_last();
        assert forall|i: int| 0 <= i < front.len() implies agree(
            s.dists,
            t.dists,
            #[trigger] front[i],
        ) by {
            assert(front[i] == ids[i]);
        }
        law_listing_is_local(s, t, front);
        assert(agree(s.dists, t.dists, ids[ids.len() - 1]));
    }
}

} // verus!
