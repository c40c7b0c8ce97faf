//! What each call of the dividend contract is for, told by its inputs and
//! results.
use vstd::prelude::*;

use crate::address::Address;
use crate::dividend::{
    balance_in, claim_refusal, claimable_outcome, claimed_by, create_refusal, dists_of,
    error_code, extensions_of, holds, list_refusal, role_abort, share, supply_of, total_of,
    truncated, Abort, ClaimKey, DataKey, Distribution, DividendContract, DividendView, Error,
};
use crate::dividend_laws::{law_accepted_lists, distinct, unsigned};
use crate::index::ids_under;
use crate::invocation::Extension;
use crate::roles::{AdminRole, RoleRefusal};

verus! {

// ---- the list of holders ----
/// The sum of a list is that of its balances: nothing on an empty list, and one
/// entry more adds its balance.
pub proof fn law_totals_add_up(list: Seq<(Address, i128)>, entry: (Address, i128))
    ensures
        total_of(Seq::empty()) == 0,
        total_of(list.push(entry)) == total_of(list) + entry.1,
{
    assert(list.push(entry).drop_last() =~= list);
}

/// An address is on a list if an entry of the list is about it.
pub proof fn law_who_is_on_a_list(list: Seq<(Address, i128)>, entry: (Address, i128), who: Address)
    ensures
        !holds(Seq::empty(), who),
        holds(list.push(entry), who) <==> holds(list, who) || entry.0 == who,
        forall|i: int| 0 <= i < list.len() ==> holds(list, (#[trigger] list[i]).0),
{
    let longer = list.push(entry);
    assert(longer[list.len() as int] == entry);
    if holds(list, who) {
        let k = choose|k: int| 0 <= k < list.len() && (#[trigger] list[k]).0 == who;
        assert(longer[k].0 == who);
    }
    if holds(longer, who) && entry.0 != who {
        let k = choose|k: int| 0 <= k < longer.len() && (#[trigger] longer[k]).0 == who;
        assert(list[k].0 == who);
    }
}

/// A list is refused for its first bad entry, whatever comes after: one with a
/// negative balance, with an address that came before, or with a balance that
/// takes the sum out of range.
pub proof fn law_first_bad_entry_decides(list: Seq<(Address, i128)>, entry: (Address, i128))
    ensures
        list_refusal(Seq::empty()) is None,
        list_refusal(list) is Some ==> list_refusal(list.push(entry)) == list_refusal(list),
        list_refusal(list) is None ==> {
            let known = exists|i: int| 0 <= i < list.len() && (#[trigger] list[i]).0 == entry.0;
            let refusal = list_refusal(list.push(entry));
            &&& entry.1 < 0 ==> refusal == Some(Error::InvalidAmount)
            &&& entry.1 >= 0 && known ==> refusal == Some(Error::DuplicateHolder)
            &&& entry.1 >= 0 && !known && total_of(list) + entry.1 > i128::MAX ==> refusal == Some(
                Error::ArithmeticOverflow,
            )
            &&& entry.1 >= 0 && !known && total_of(list) + entry.1 <= i128::MAX ==> refusal is None
        },
{
    assert(list.push(entry).drop_last() =~= list);
    if list_refusal(list) is None {
        law_accepted_lists(list);
    }
}

/// The balance of an address on a list is that of its first entry.
pub proof fn law_first_entry_counts(list: Seq<(Address, i128)>, i: int)
    requires
        0 <= i < list.len(),
        forall|j: int| 0 <= j < i ==> (#[trigger] list[j]).0 != list[i].0,
    ensures
        balance_in(list, list[i].0) == list[i].1,
    decreases list.len(),
{
    if i > 0 {
        let rest = list.drop_first();
        assert(list[0].0 != list[i].0);
        assert(rest[i - 1] == list[i]);
        assert forall|j: int| 0 <= j < i - 1 implies (#[trigger] rest[j]).0 != rest[i - 1].0 by {
            assert(rest[j] == list[j + 1]);
        }
        law_first_entry_counts(rest, i - 1);
    }
}

/// An address without an entry on a list has no balance there.
pub proof fn law_strangers_have_no_balance(list: Seq<(Address, i128)>, who: Address)
    requires
        forall|j: int| 0 <= j < list.len() ==> (#[trigger] list[j]).0 != who,
    ensures
        balance_in(list, who) == 0,
    decreases list.len(),
{
    if list.len() > 0 {
        let rest = list.drop_first();
        assert(list[0].0 != who);
        assert forall|j: int| 0 <= j < rest.len() implies (#[trigger] rest[j]).0 != who by {
            assert(rest[j] == list[j + 1]);
        }
        law_strangers_have_no_balance(rest, who);
    }
}

// ---- what is accepted ----
/// The admin can distribute every positive amount over every list without a
/// negative balance, without an address twice and with a sum in range, if the
/// asset token has a supply. What the balances on the list come to, and how
/// that compares with the supply, does not matter.
pub proof fn law_distribution_accepted(
    s: DividendView,
    signed: Seq<Address>,
    admin: Address,
    asset_token: Address,
    total_amount: i128,
    eligible: Seq<(Address, i128)>,
    supply: Option<i128>,
)
    ensures
        create_refusal(s, signed, admin, asset_token, total_amount, eligible, supply) is None <==> {
            &&& s.role.admin == Some(admin)
            &&& signed.contains(admin)
            &&& total_amount > 0
            &&& supply is Some
            &&& supply->0 > 0
            &&& forall|i: int| 0 <= i < eligible.len() ==> (#[trigger] eligible[i]).1 >= 0
            &&& forall|i: int, j: int|
                0 <= i < j < eligible.len() ==> (#[trigger] eligible[i]).0 != (
                #[trigger] eligible[j]).0
            &&& total_of(eligible) <= i128::MAX
        },
{
    law_accepted_lists(eligible);
    assert(unsigned(eligible) <==> forall|i: int|
        0 <= i < eligible.len() ==> (#[trigger] eligible[i]).1 >= 0);
    assert(distinct(eligible) <==> forall|i: int, j: int|
        0 <= i < j < eligible.len() ==> (#[trigger] eligible[i]).0 != (#[trigger] eligible[j]).0);
}

/// A distribution that is refused is refused for the first of what is wrong:
/// the role, the amount, the supply, the list. The supply is asked of the asset
/// token once it matters.
pub proof fn law_distribution_refused(
    s: DividendView,
    signed: Seq<Address>,
    admin: Address,
    asset_token: Address,
    total_amount: i128,
    eligible: Seq<(Address, i128)>,
    supply: Option<i128>,
)
    ensures
        ({
            let refusal = create_refusal(
                s,
                signed,
                admin,
                asset_token,
                total_amount,
                eligible,
                supply,
            );
            let may = s.role.admin == Some(admin) && signed.contains(admin);
            &&& s.role.admin is None ==> refusal == Some(Abort::Error(Error::NotInitialized))
            &&& s.role.admin is Some && !signed.contains(admin) ==> refusal == Some(
                Abort::Unsigned(admin),
            )
            &&& s.role.admin is Some && signed.contains(admin) && s.role.admin != Some(admin)
                ==> refusal == Some(Abort::Error(Error::Unauthorized))
            &&& may && total_amount <= 0 ==> refusal == Some(Abort::Error(Error::InvalidAmount))
            &&& may && total_amount > 0 && supply is None ==> refusal == Some(
                Abort::NeedsSupply(asset_token),
            )
            &&& may && total_amount > 0 && supply is Some && supply->0 <= 0 ==> refusal == Some(
                Abort::Error(Error::ZeroSupply),
            )
            &&& may && total_amount > 0 && supply is Some && supply->0 > 0 ==> {
                &&& list_refusal(eligible) is None ==> refusal is None
                &&& list_refusal(eligible) matches Some(e) ==> refusal == Some(Abort::Error(e))
            }
        }),
{
}

/// Whoever is owed something of a distribution can claim it, once, as long as
/// the distribution still holds it; otherwise the first of what is wrong is
/// told.
pub proof fn law_claim_accepted(s: DividendView, signed: Seq<Address>, id: u64, holder: Address)
    ensures
        ({
            let refusal = claim_refusal(s, signed, id, holder);
            let k = ClaimKey { id, holder };
            let known = signed.contains(holder) && s.dists.contains_key(id);
            let claimed = s.claimed.contains_key(k) && s.claimed[k];
            &&& !signed.contains(holder) ==> refusal == Some(Abort::Unsigned(holder))
            &&& signed.contains(holder) && !s.dists.contains_key(id) ==> refusal == Some(
                Abort::Error(Error::DistributionNotFound),
            )
            &&& known && claimed ==> refusal == Some(Abort::Error(Error::AlreadyClaimed))
            &&& known && !claimed ==> match claimable_outcome(s, id, holder) {
                Err(e) => refusal == Some(Abort::Error(e)),
                Ok(amount) => {
                    let sum = s.dists[id].distributed + amount;
                    &&& amount <= 0 ==> refusal == Some(Abort::Error(Error::NothingToClaim))
                    &&& amount > 0 && sum > i128::MAX ==> refusal == Some(
                        Abort::Error(Error::ArithmeticOverflow),
                    )
                    &&& amount > 0 && s.dists[id].total_amount < sum <= i128::MAX ==> refusal
                        == Some(Abort::Error(Error::OverDistributed))
                    &&& amount > 0 && sum <= s.dists[id].total_amount ==> refusal is None
                },
            }
        }),
{
}

/// What is wrong with the role is told to callers under the same name.
pub proof fn law_dividend_role_errors(who: Address)
    ensures
        role_abort(RoleRefusal::AlreadyInitialized) == Abort::Error(Error::AlreadyInitialized),
        role_abort(RoleRefusal::NotInitialized) == Abort::Error(Error::NotInitialized),
        role_abort(RoleRefusal::Unsigned(who)) == Abort::Unsigned(who),
        role_abort(RoleRefusal::Unauthorized) == Abort::Error(Error::Unauthorized),
        role_abort(RoleRefusal::NoPendingAdmin) == Abort::Error(Error::NoPendingAdmin),
{
}

// ---- what is owed ----
/// A quotient rounded towards 0 is the largest number of whole divisors that
/// the dividend holds, on either side of 0.
pub proof fn law_quotients_round_towards_zero(a: int, b: int)
    requires
        b > 0,
    ensures
        a >= 0 ==> truncated(a, b) * b <= a < (truncated(a, b) + 1) * b,
        a < 0 ==> (truncated(a, b) - 1) * b < a <= truncated(a, b) * b,
{
    let p = if a >= 0 {
        a
    } else {
        -a
    };
    let q = p / b;
    assert(q * b <= p < (q + 1) * b) by (nonlinear_arith)
        requires
            b > 0,
            q == p / b,
    ;
    assert((-q) * b == -(q * b)) by (nonlinear_arith);
    assert((-q - 1) * b == -((q + 1) * b)) by (nonlinear_arith);
}

/// A share is the largest whole amount that is in proportion: one unit more
/// would be too much.
pub proof fn law_shares_round_down(total: int, balance: int, supply: int)
    requires
        supply > 0,
    ensures
        share(total, balance, supply) * supply <= total * balance < (share(total, balance, supply)
            + 1) * supply,
{
    let p = total * balance;
    let q = p / supply;
    assert(q * supply <= p < (q + 1) * supply) by (nonlinear_arith)
        requires
            supply > 0,
            q == p / supply,
    ;
}

/// Nothing is owed of a distribution that there is not, to one who has claimed,
/// where the list of holders or its sum is gone, or to one who is not on it.
pub proof fn law_nothing_is_owed(s: DividendView, id: u64, holder: Address)
    ensures
        ({
            let k = ClaimKey { id, holder };
            let outcome = claimable_outcome(s, id, holder);
            let list = s.snapshot[id];
            &&& !s.dists.contains_key(id) ==> outcome == Ok::<i128, Error>(0)
            &&& s.claimed.contains_key(k) && s.claimed[k] ==> outcome == Ok::<i128, Error>(0)
            &&& !s.supply.contains_key(id) || s.supply[id] <= 0 ==> outcome == Ok::<i128, Error>(0)
            &&& !s.snapshot.contains_key(id) ==> outcome == Ok::<i128, Error>(0)
            &&& (forall|j: int| 0 <= j < list.len() ==> (#[trigger] list[j]).0 != holder)
                ==> outcome == Ok::<i128, Error>(0)
        }),
{
    let list = s.snapshot[id];
    if forall|j: int| 0 <= j < list.len() ==> (#[trigger] list[j]).0 != holder {
        law_strangers_have_no_balance(list, holder);
    }
}

/// Whoever is on the list of a distribution and has not claimed is owed the
/// part of the whole that its balance is of the sum, rounded towards 0. Only
/// where total times balance is out of range is there an error instead.
pub proof fn law_holders_are_owed_their_part(s: DividendView, id: u64, i: int)
    requires
        s.dists.contains_key(id),
        s.supply.contains_key(id),
        s.supply[id] > 0,
        s.snapshot.contains_key(id),
        0 <= i < s.snapshot[id].len(),
        forall|j: int|
            0 <= j < i ==> (#[trigger] s.snapshot[id][j]).0 != s.snapshot[id][i].0,
        !(s.claimed.contains_key(ClaimKey { id, holder: s.snapshot[id][i].0 })
            && s.claimed[ClaimKey { id, holder: s.snapshot[id][i].0 }]),
    ensures
        ({
            let (holder, balance) = s.snapshot[id][i];
            let product = s.dists[id].total_amount * balance;
            let supply = s.supply[id];
            let fits = i128::MIN <= product <= i128::MAX;
            match claimable_outcome(s, id, holder) {
                Err(e) => balance > 0 && !fits && e == Error::ArithmeticOverflow,
                Ok(amount) => {
                    &&& balance <= 0 ==> amount == 0
                    &&& balance > 0 ==> fits
                    &&& balance > 0 && product >= 0 ==> amount * supply <= product < (amount + 1)
                        * supply
                    &&& balance > 0 && product < 0 ==> (amount - 1) * supply < product <= amount
                        * supply
                },
            }
        }),
{
    let list = s.snapshot[id];
    let (holder, balance) = list[i];
    law_first_entry_counts(list, i);
    let product = s.dists[id].total_amount * balance;
    let supply = s.supply[id] as int;
    law_quotients_round_towards_zero(product, supply);
    let t = truncated(product, supply);
    let p = if product >= 0 {
        product
    } else {
        -product
    };
    assert(0 <= p / supply <= p) by (nonlinear_arith)
        requires
            p >= 0,
            supply > 0,
    ;
    if i128::MIN <= product <= i128::MAX {
        assert((t as i128) as int == t);
    }
}

/// A claim is on file exactly if it was marked; the sum of a list is what was
/// filed for it.
pub proof fn law_marks_and_sums(
    s: DividendView,
    id: u64,
    holder: Address,
    amount: i128,
    other: ClaimKey,
)
    ensures
        claimed_by(s, id, holder) <==> s.claimed.contains_key(ClaimKey { id, holder })
            && s.claimed[ClaimKey { id, holder }],
        !claimed_by(DividendView::blank(), id, holder),
        claimed_by(s.paid(id, holder, amount), id, holder),
        other != (ClaimKey { id, holder }) ==> claimed_by(
            s.paid(id, holder, amount),
            other.id,
            other.holder,
        ) == claimed_by(s, other.id, other.holder),
        s.supply.contains_key(id) ==> supply_of(s, id) == s.supply[id],
        !s.supply.contains_key(id) ==> supply_of(s, id) == 0,
{
    assert(other == (ClaimKey { id: other.id, holder: other.holder }));
}

// ---- what the calls change ----
/// A distribution is filed as it was given, with its list of holders and their
/// sum, and at the end of its asset's list. Nothing else changes.
pub proof fn law_distribution_is_filed(
    s: DividendView,
    dist: Distribution,
    eligible: Seq<(Address, i128)>,
    other: u64,
    other_asset: Address,
)
    requires
        0 <= total_of(eligible) <= i128::MAX,
    ensures
        ({
            let t = s.created(dist, eligible);
            &&& t.role == s.role
            &&& t.counter == dist.id
            &&& t.claimed == s.claimed
            &&& t.dists.contains_key(dist.id) && t.dists[dist.id] == dist
            &&& t.snapshot.contains_key(dist.id) && t.snapshot[dist.id] == eligible
            &&& t.supply.contains_key(dist.id) && t.supply[dist.id] == total_of(eligible)
            &&& ids_under(t.asset_ids, dist.asset_token) == ids_under(
                s.asset_ids,
                dist.asset_token,
            ).push(dist.id)
            &&& other_asset != dist.asset_token ==> ids_under(t.asset_ids, other_asset)
                == ids_under(s.asset_ids, other_asset)
            &&& other != dist.id ==> {
                &&& t.dists.contains_key(other) <==> s.dists.contains_key(other)
                &&& t.dists[other] == s.dists[other]
                &&& t.snapshot.contains_key(other) <==> s.snapshot.contains_key(other)
                &&& t.snapshot[other] == s.snapshot[other]
                &&& t.supply.contains_key(other) <==> s.supply.contains_key(other)
                &&& t.supply[other] == s.supply[other]
            }
        }),
{
}

/// A payment is added to what was paid out, and marks one claim. The payment
/// that pays out the rest completes the distribution, whose list of holders is
/// then dropped with its sum. Nothing else changes.
pub proof fn law_payment_is_filed(
    s: DividendView,
    id: u64,
    holder: Address,
    amount: i128,
    other: u64,
)
    requires
        i128::MIN <= s.dists[id].distributed + amount <= i128::MAX,
    ensures
        ({
            let t = s.paid(id, holder, amount);
            let d = s.dists[id];
            let e = t.dists[id];
            let done = d.distributed + amount >= d.total_amount;
            &&& t.role == s.role
            &&& t.counter == s.counter
            &&& t.asset_ids == s.asset_ids
            &&& t.dists.contains_key(id)
            &&& e.distributed == d.distributed + amount
            &&& e.completed <==> done || d.completed
            &&& e.id == d.id
            &&& e.asset_token == d.asset_token
            &&& e.payment_token == d.payment_token
            &&& e.total_amount == d.total_amount
            &&& e.snapshot_ledger == d.snapshot_ledger
            &&& e.created_at == d.created_at
            &&& done ==> !t.snapshot.contains_key(id) && !t.supply.contains_key(id)
            &&& !done ==> t.snapshot == s.snapshot && t.supply == s.supply
            &&& other != id ==> {
                &&& t.dists.contains_key(other) <==> s.dists.contains_key(other)
                &&& t.dists[other] == s.dists[other]
                &&& t.snapshot.contains_key(other) <==> s.snapshot.contains_key(other)
                &&& t.snapshot[other] == s.snapshot[other]
                &&& t.supply.contains_key(other) <==> s.supply.contains_key(other)
                &&& t.supply[other] == s.supply[other]
            }
        }),
{
}

/// A contract starts with no admin and nothing to claim. Initialization gives
/// it an admin; a change of role changes the role alone.
pub proof fn law_dividend_starts_empty(
    s: DividendView,
    admin: Address,
    role: AdminRole,
    id: u64,
    k: ClaimKey,
    asset: Address,
)
    ensures
        DividendView::blank().role.admin is None,
        DividendView::blank().role.pending is None,
        DividendView::blank().counter == 0,
        !DividendView::blank().dists.contains_key(id),
        !DividendView::blank().claimed.contains_key(k),
        !DividendView::blank().supply.contains_key(id),
        !DividendView::blank().snapshot.contains_key(id),
        ids_under(DividendView::blank().asset_ids, asset).len() == 0,
        s.initialized(admin).role.admin == Some(admin),
        s.initialized(admin).role.pending == s.role.pending,
        s.initialized(admin).counter == 0,
        s.initialized(admin).dists == s.dists,
        s.initialized(admin).claimed == s.claimed,
        s.initialized(admin).asset_ids == s.asset_ids,
        s.initialized(admin).supply == s.supply,
        s.initialized(admin).snapshot == s.snapshot,
        s.with_role(role).role == role,
        s.with_role(role).counter == s.counter,
        s.with_role(role).dists == s.dists,
        s.with_role(role).claimed == s.claimed,
        s.with_role(role).asset_ids == s.asset_ids,
        s.with_role(role).supply == s.supply,
        s.with_role(role).snapshot == s.snapshot,
{
}

/// Looking up a list of ids gives each distribution that there is, in order,
/// and extends the lifetime of each of those: one id more gives one more, or
/// none.
pub proof fn law_distributions_are_looked_up_in_order(
    dists: Map<u64, Distribution>,
    ids: Seq<u64>,
    id: u64,
)
    ensures
        dists_of(dists, Seq::empty()).len() == 0,
        extensions_of(dists, Seq::empty()).len() == 0,
        dists.contains_key(id) ==> dists_of(dists, ids.push(id)) == dists_of(dists, ids).push(
            dists[id],
        ) && extensions_of(dists, ids.push(id)) == extensions_of(dists, ids).push(
            Extension::Entry(DataKey::Dist(id)),
        ),
        !dists.contains_key(id) ==> dists_of(dists, ids.push(id)) == dists_of(dists, ids)
            && extensions_of(dists, ids.push(id)) == extensions_of(dists, ids),
{
    assert(ids.push(id).drop_last() =~= ids);
}

/// What is said of a contract is what it stores, entry for entry.
pub proof fn law_dividend_is_seen_whole(c: DividendContract, id: u64, k: ClaimKey, asset: Address)
    ensures
        c@.role == c.role,
        c@.counter == c.counter,
        c@.dists.contains_key(id) <==> c.dists@.contains_key(id),
        c@.dists[id] == c.dists@[id],
        c@.claimed.contains_key(k) <==> c.claimed@.contains_key(k),
        c@.claimed[k] == c.claimed@[k],
        c@.asset_ids.contains_key(asset) <==> c.asset_ids@.contains_key(asset),
        c.asset_ids@.contains_key(asset) ==> c@.asset_ids[asset] == c.asset_ids@[asset]@,
        c@.supply.contains_key(id) <==> c.supply@.contains_key(id),
        c@.supply[id] == c.supply@[id],
        c@.snapshot.contains_key(id) <==> c.snapshot@.contains_key(id),
        c.snapshot@.contains_key(id) ==> c@.snapshot[id] == c.snapshot@[id]@,
{
}

/// Every error has a number of its own, which does not change.
pub proof fn law_dividend_error_numbers(a: Error, b: Error)
    ensures
        error_code(a) == error_code(b) ==> a == b,
        1 <= error_code(a) <= 12,
        error_code(Error::AlreadyInitialized) == 1,
        error_code(Error::NotInitialized) == 2,
        error_code(Error::Unauthorized) == 3,
        error_code(Error::DistributionNotFound) == 4,
        error_code(Error::InvalidAmount) == 5,
        error_code(Error::NothingToClaim) == 6,
        error_code(Error::AlreadyClaimed) == 7,
        error_code(Error::ZeroSupply) == 8,
        error_code(Error::OverDistributed) == 9,
        error_code(Error::ArithmeticOverflow) == 10,
        error_code(Error::DuplicateHolder) == 11,
        error_code(Error::NoPendingAdmin) == 12,
{
}

} // verus!
