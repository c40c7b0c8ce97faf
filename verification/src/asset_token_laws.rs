//! What the asset token promises across calls.
use vstd::prelude::*;

use crate::address::Address;
use crate::amounts::overflows;
use crate::asset_token::{
    balance_of, batch_refusal, burn_refusal, compliance_refusal, held, initialize_refusal,
    list_refusal, mint_refusal, pause_refusal, role_of, room_refusal, texts_fit,
    token_admin_refusal, transfer_refusal, valuation_refusal, Abort, AssetMetadataView,
    AssetTokenView, Error,
};
use crate::compliance::{allowed, ComplianceView};
use crate::roles::{accept_refusal, RoleRefusal};
use crate::table::agree;

verus! {

/// The sum of all balances does not depend on the order in which they are
/// taken.
proof fn lemma_held_remove(balances: Map<Address, i128>, who: Address)
    requires
        balances.dom().finite(),
        balances.contains_key(who),
    ensures
        held(balances) == balances[who] + held(balances.remove(who)),
    decreases balances.dom().len(),
{
    let first = balances.dom().choose();
    assert(balances.dom().contains(who));
    assert(balances.dom().len() > 0);
    assert(balances.dom().contains(first));
    if first != who {
        let rest = balances.remove(first);
        assert(rest.dom() =~= balances.dom().remove(first));
        assert(rest.contains_key(who));
        lemma_held_remove(rest, who);
        let other = balances.remove(who);
        assert(other.dom() =~= balances.dom().remove(who));
        assert(other.contains_key(first));
        lemma_held_remove(other, first);
        assert(rest.remove(who) =~= other.remove(first));
    }
}

/// Setting one balance changes the sum by the change of that balance.
proof fn lemma_held_insert(s: AssetTokenView, who: Address, amount: i128)
    requires
        s.balances.dom().finite(),
    ensures
        held(s.balances.insert(who, amount)) == held(s.balances) - balance_of(s, who) + amount,
        s.balances.insert(who, amount).dom().finite(),
{
    let after = s.balances.insert(who, amount);
    assert(after.dom() =~= s.balances.dom().insert(who));
    lemma_held_remove(after, who);
    if s.balances.contains_key(who) {
        lemma_held_remove(s.balances, who);
        assert(after.remove(who) =~= s.balances.remove(who));
    } else {
        assert(after.remove(who) =~= s.balances);
    }
}

/// The sum of all balances is nothing where there is none, and follows each of
/// them.
pub proof fn law_sum_of_balances(s: AssetTokenView, who: Address, amount: i128)
    requires
        s.balances.dom().finite(),
    ensures
        held(Map::empty()) == 0,
        held(s.balances.insert(who, amount)) == held(s.balances) - balance_of(s, who) + amount,
{
    assert(Map::<Address, i128>::empty().dom() =~= Set::empty());
    lemma_held_insert(s, who, amount);
}

/// With no negative balance, none is more than the sum, nor are two.
proof fn lemma_held_bounds(balances: Map<Address, i128>, who: Address)
    requires
        balances.dom().finite(),
        forall|a: Address| #[trigger] balances.contains_key(a) ==> balances[a] >= 0,
    ensures
        held(balances) >= 0,
        balances.contains_key(who) ==> balances[who] <= held(balances),
    decreases balances.dom().len(),
{
    if balances.contains_key(who) {
        let rest = balances.remove(who);
        assert(rest.dom() =~= balances.dom().remove(who));
        assert forall|a: Address| #[trigger] rest.contains_key(a) implies rest[a] >= 0 by {
            assert(balances.contains_key(a));
        }
        lemma_held_remove(balances, who);
        lemma_held_bounds(rest, who);
    } else if balances.dom().len() > 0 {
        let first = balances.dom().choose();
        assert(balances.contains_key(first));
        let rest = balances.remove(first);
        assert(rest.dom() =~= balances.dom().remove(first));
        assert forall|a: Address| #[trigger] rest.contains_key(a) implies rest[a] >= 0 by {
            assert(balances.contains_key(a));
        }
        lemma_held_bounds(rest, first);
    }
}

/// Balances are never negative and never more than the supply; two holders
/// together never have more either.
pub proof fn law_balances_within_supply(s: AssetTokenView, one: Address, other: Address)
    requires
        s.wf(),
        s.metadata is Some,
    ensures
        0 <= balance_of(s, one) <= s.metadata->0.total_supply,
        one != other ==> balance_of(s, one) + balance_of(s, other) <= s.metadata->0.total_supply,
{
    lemma_held_bounds(s.balances, one);
    assert(s.balances.contains_key(one) ==> s.balances[one] >= 0);
    assert(s.balances.contains_key(other) ==> s.balances[other] >= 0);
    if one != other {
        lemma_held_bounds(s.balances, other);
        if s.balances.contains_key(one) && s.balances.contains_key(other) {
            let rest = s.balances.remove(one);
            assert(rest.dom() =~= s.balances.dom().remove(one));
            assert forall|a: Address| #[trigger] rest.contains_key(a) implies rest[a] >= 0 by {
                assert(s.balances.contains_key(a));
            }
            lemma_held_remove(s.balances, one);
            lemma_held_bounds(rest, other);
            assert(rest.contains_key(other));
        }
    }
}

/// A new token is in order.
pub proof fn law_blank_is_wf()
    ensures
        AssetTokenView::blank().wf(),
{
}

/// Initialization puts a token in order: the admin holds the whole supply and
/// nobody else anything.
pub proof fn law_initialize_keeps_wf(
    s: AssetTokenView,
    signed: Seq<Address>,
    m: AssetMetadataView,
    answers: Seq<bool>,
    other: Address,
)
    requires
        s.wf(),
        initialize_refusal(s, signed, m, answers) is None,
    ensures
        s.initialized(m).wf(),
        balance_of(s.initialized(m), m.admin) == m.total_supply,
        other != m.admin ==> balance_of(s.initialized(m), other) == 0,
{
    let t = s.initialized(m);
    assert(s.balances.dom() =~= Set::<Address>::empty());
    assert(!s.balances.dom().contains(m.admin));
    assert(!s.balances.dom().contains(other));
    lemma_held_insert(s, m.admin, m.total_supply);
    assert(held(s.balances) == 0);
    assert forall|a: Address| #[trigger] t.balances.contains_key(a) implies t.balances[a] >= 0 by {
        assert(!s.balances.dom().contains(a));
    }
}

/// A change of the metadata that leaves the supply, the texts and a valuation
/// that is not negative keeps a token in order.
pub proof fn law_metadata_change_keeps_wf(s: AssetTokenView, m: AssetMetadataView)
    requires
        s.wf(),
        s.metadata is Some,
        m.total_supply == s.metadata->0.total_supply,
        m.valuation >= 0,
        texts_fit(m),
    ensures
        s.with_metadata(m).wf(),
{
    let t = s.with_metadata(m);
    assert forall|a: Address| #[trigger] t.balances.contains_key(a) implies t.balances[a] >= 0 by {
        assert(s.balances.contains_key(a));
    }
}

/// A transfer keeps a token in order and conserves the supply: what one side
/// loses the other gains, and nobody else is touched.
pub proof fn law_transfer_conserves(
    s: AssetTokenView,
    signed: Seq<Address>,
    from: Address,
    to: Address,
    amount: i128,
    answers: Seq<bool>,
    other: Address,
)
    requires
        s.wf(),
        transfer_refusal(s, signed, from, to, amount, answers) is None,
    ensures
        ({
            let t = s.moved(from, to, amount);
            &&& t.wf()
            &&& t.metadata == s.metadata
            &&& held(t.balances) == held(s.balances)
            &&& from == to ==> t == s
            &&& from != to ==> balance_of(t, from) == balance_of(s, from) - amount
                && balance_of(t, to) == balance_of(s, to) + amount
            &&& other != from && other != to ==> balance_of(t, other) == balance_of(s, other)
        }),
{
    let t = s.moved(from, to, amount);
    if from != to {
        let mid = AssetTokenView {
            balances: s.balances.insert(from, (balance_of(s, from) - amount) as i128),
            ..s
        };
        lemma_held_insert(s, from, (balance_of(s, from) - amount) as i128);
        assert(balance_of(mid, to) == balance_of(s, to));
        lemma_held_insert(mid, to, (balance_of(s, to) + amount) as i128);
        assert(s.balances.contains_key(to) ==> s.balances[to] >= 0);
        assert forall|a: Address| #[trigger] t.balances.contains_key(a) implies t.balances[a]
            >= 0 by {
            assert(a != from && a != to ==> s.balances.contains_key(a));
        }
    }
}

/// In a token in order no transfer runs out of range: if the amount is there
/// and both sides are allowed, it is made.
pub proof fn law_transfer_never_overflows(
    s: AssetTokenView,
    signed: Seq<Address>,
    from: Address,
    to: Address,
    amount: i128,
    answers: Seq<bool>,
)
    requires
        s.wf(),
    ensures
        transfer_refusal(s, signed, from, to, amount, answers) != Some(
            Abort::Error(Error::Overflow),
        ),
{
    if s.metadata is Some {
        law_balances_within_supply(s, from, to);
    }
}

/// A mint adds the amount to one balance and to the supply, and touches nobody
/// else. Only the range of the supply limits it.
pub proof fn law_mint_adds(s: AssetTokenView, to: Address, amount: i128, other: Address)
    requires
        s.wf(),
        s.metadata is Some,
        amount > 0,
    ensures
        room_refusal(s, to, amount) is Some <==> overflows(s.metadata->0.total_supply + amount),
        room_refusal(s, to, amount) is None ==> {
            let t = s.minted(to, amount);
            &&& t.wf()
            &&& t.metadata->0 == (AssetMetadataView {
                total_supply: (s.metadata->0.total_supply + amount) as i128,
                ..s.metadata->0
            })
            &&& t.metadata->0.total_supply == s.metadata->0.total_supply + amount
            &&& balance_of(t, to) == balance_of(s, to) + amount
            &&& other != to ==> balance_of(t, other) == balance_of(s, other)
        },
{
    law_balances_within_supply(s, to, to);
    if room_refusal(s, to, amount) is None {
        let t = s.minted(to, amount);
        lemma_held_insert(s, to, (balance_of(s, to) + amount) as i128);
        assert forall|a: Address| #[trigger] t.balances.contains_key(a) implies t.balances[a]
            >= 0 by {
            assert(a != to ==> s.balances.contains_key(a));
        }
    }
}

/// A burn takes the amount from one balance and from the supply, and touches
/// nobody else. In a token in order it never runs out of range.
pub proof fn law_burn_takes(
    s: AssetTokenView,
    signed: Seq<Address>,
    from: Address,
    amount: i128,
    answers: Seq<bool>,
    other: Address,
)
    requires
        s.wf(),
    ensures
        burn_refusal(s, signed, from, amount, answers) != Some(Abort::Error(Error::Overflow)),
        burn_refusal(s, signed, from, amount, answers) is None ==> {
            let t = s.burned(from, amount);
            &&& t.wf()
            &&& t.metadata->0 == (AssetMetadataView {
                total_supply: (s.metadata->0.total_supply - amount) as i128,
                ..s.metadata->0
            })
            &&& t.metadata->0.total_supply == s.metadata->0.total_supply - amount
            &&& balance_of(t, from) == balance_of(s, from) - amount
            &&& other != from ==> balance_of(t, other) == balance_of(s, other)
        },
{
    if s.metadata is Some {
        law_balances_within_supply(s, from, from);
        if burn_refusal(s, signed, from, amount, answers) is None {
            let t = s.burned(from, amount);
            lemma_held_insert(s, from, (balance_of(s, from) - amount) as i128);
            assert forall|a: Address| #[trigger] t.balances.contains_key(a) implies t.balances[a]
                >= 0 by {
                assert(a != from ==> s.balances.contains_key(a));
            }
        }
    }
}

/// The summed amounts of a list of mints.
pub open spec fn amount_of(list: Seq<(Address, i128)>) -> int
    decreases list.len(),
{
    if list.len() == 0 {
        0
    } else {
        amount_of(list.drop_last()) + list.last().1
    }
}

/// The summed amounts of the mints of a list that go to one address.
pub open spec fn amount_to(list: Seq<(Address, i128)>, who: Address) -> int
    decreases list.len(),
{
    if list.len() == 0 {
        0
    } else {
        amount_to(list.drop_last(), who) + if list.last().0 == who {
            list.last().1 as int
        } else {
            0
        }
    }
}

/// A batch that is accepted keeps a token in order and adds up: the supply
/// grows by all its amounts, each balance by those that go to it.
pub proof fn law_batch_adds_up(
    s: AssetTokenView,
    list: Seq<(Address, i128)>,
    answers: Seq<bool>,
    who: Address,
)
    requires
        s.wf(),
        s.metadata is Some,
        list_refusal(s, list, answers) is None,
    ensures
        ({
            let t = s.batched(list);
            &&& t.wf()
            &&& t.metadata is Some
            &&& t.metadata->0 == (AssetMetadataView {
                total_supply: t.metadata->0.total_supply,
                ..s.metadata->0
            })
            &&& t.metadata->0.total_supply == s.metadata->0.total_supply + amount_of(list)
            &&& balance_of(t, who) == balance_of(s, who) + amount_to(list, who)
        }),
    decreases list.len(),
{
    if list.len() > 0 {
        let front = list.drop_last();
        let (to, amount) = list.last();
        law_batch_adds_up(s, front, answers, who);
        let mid = s.batched(front);
        law_mint_adds(mid, to, amount, who);
    }
}

/// A batch is its mints made one after the other: a batch of two lists is the
/// one batch and then the other, and a batch of one mint is that mint.
pub proof fn law_batch_is_mints(
    s: AssetTokenView,
    one: Seq<(Address, i128)>,
    other: Seq<(Address, i128)>,
    to: Address,
    amount: i128,
)
    ensures
        s.batched(one + other) == s.batched(one).batched(other),
        s.batched(seq![(to, amount)]) == s.minted(to, amount),
    decreases other.len(),
{
    let single = seq![(to, amount)];
    assert(single.drop_last() =~= Seq::<(Address, i128)>::empty());
    assert(s.batched(single.drop_last()) == s);
    if other.len() == 0 {
        assert(one + other =~= one);
    } else {
        assert((one + other).drop_last() =~= one + other.drop_last());
        assert((one + other).last() == other.last());
        law_batch_is_mints(s, one, other.drop_last(), to, amount);
    }
}

/// A batch of one mint is refused exactly if that mint is, for an amount that
/// is not refused by itself.
pub proof fn law_batch_of_one(
    s: AssetTokenView,
    signed: Seq<Address>,
    admin: Address,
    to: Address,
    amount: i128,
    answers: Seq<bool>,
)
    requires
        amount > 0,
    ensures
        batch_refusal(s, signed, admin, seq![(to, amount)], answers) == mint_refusal(
            s,
            signed,
            admin,
            to,
            amount,
            answers,
        ),
{
    let single = seq![(to, amount)];
    assert(single.drop_last() =~= Seq::<(Address, i128)>::empty());
    assert(s.batched(single.drop_last()) == s);
    assert(list_refusal(s, single.drop_last(), answers) is None);
}

/// A paused token moves nothing: every transfer, mint, batch and burn is
/// refused, whoever asks.
pub proof fn law_pause_stops_everything(
    s: AssetTokenView,
    signed: Seq<Address>,
    who: Address,
    to: Address,
    amount: i128,
    list: Seq<(Address, i128)>,
    answers: Seq<bool>,
)
    requires
        s.metadata is Some,
        s.metadata->0.paused,
    ensures
        transfer_refusal(s, signed, who, to, amount, answers) is Some,
        mint_refusal(s, signed, who, to, amount, answers) is Some,
        batch_refusal(s, signed, who, list, answers) is Some,
        burn_refusal(s, signed, who, amount, answers) is Some,
        signed.contains(who) && amount > 0 ==> transfer_refusal(
            s,
            signed,
            who,
            to,
            amount,
            answers,
        ) == Some(Abort::Error(Error::Paused)) && burn_refusal(s, signed, who, amount, answers)
            == Some(Abort::Error(Error::Paused)),
{
}

/// Resuming undoes a pause: the token is as it was before.
pub proof fn law_unpause_undoes_pause(s: AssetTokenView)
    requires
        s.metadata is Some,
        !s.metadata->0.paused,
    ensures
        ({
            let stopped = s.with_metadata(
                (AssetMetadataView { paused: true, ..s.metadata->0 }),
            );
            stopped.with_metadata(
                (AssetMetadataView { paused: false, ..stopped.metadata->0 }),
            ) == s
        }),
{
    let stopped = s.with_metadata(AssetMetadataView { paused: true, ..s.metadata->0 });
    let back = AssetMetadataView { paused: false, ..stopped.metadata->0 };
    assert(back =~= s.metadata->0);
    assert(stopped.with_metadata(back) =~= s);
}

/// The guardian can pause and nothing else: every act of the admin is refused
/// to a guardian that is not itself the admin.
pub proof fn law_guardian_only_pauses(
    s: AssetTokenView,
    signed: Seq<Address>,
    guardian: Address,
    to: Address,
    amount: i128,
    list: Seq<(Address, i128)>,
    answers: Seq<bool>,
)
    requires
        s.metadata is Some,
        s.metadata->0.guardian == Some(guardian),
        s.metadata->0.admin != guardian,
        signed.contains(guardian),
    ensures
        pause_refusal(s, signed, guardian) is None,
        ({
            let no = Some(Abort::Error(Error::Unauthorized));
            &&& token_admin_refusal(s, signed, guardian) == no
            &&& mint_refusal(s, signed, guardian, to, amount, answers) == no
            &&& batch_refusal(s, signed, guardian, list, answers) == no
            &&& valuation_refusal(s, signed, guardian, amount) == no
            &&& compliance_refusal(s, signed, guardian, to, answers) == no
        }),
{
}

/// Nobody but the admin and the guardian can pause; with the guardian cleared
/// only the admin can.
pub proof fn law_who_can_pause(s: AssetTokenView, signed: Seq<Address>, who: Address)
    requires
        s.metadata is Some,
        signed.contains(who),
    ensures
        pause_refusal(s, signed, who) is None <==> who == s.metadata->0.admin || Some(who)
            == s.metadata->0.guardian,
        pause_refusal(
            s.with_metadata((AssetMetadataView { guardian: None, ..s.metadata->0 })),
            signed,
            who,
        ) is None <==> who == s.metadata->0.admin,
{
}

/// Only approved addresses receive the asset: a transfer is made only if the
/// compliance contract on record has said yes to the sender and then to the
/// recipient, a mint and each mint of a batch only if it has said yes to the
/// recipient.
pub proof fn law_compliance_decides(
    s: AssetTokenView,
    signed: Seq<Address>,
    who: Address,
    to: Address,
    amount: i128,
    list: Seq<(Address, i128)>,
    answers: Seq<bool>,
)
    ensures
        transfer_refusal(s, signed, who, to, amount, answers) is None ==> answers.len() >= 2
            && answers[0] && answers[1],
        mint_refusal(s, signed, who, to, amount, answers) is None ==> answers.len() >= 1
            && answers[0],
        list_refusal(s, list, answers) is None ==> answers.len() >= list.len() && forall|i: int|
            0 <= i < list.len() ==> answers[i],
        burn_refusal(s, signed, who, amount, answers) is None ==> answers.len() >= 1 && answers[0],
    decreases list.len(),
{
    if list.len() > 0 {
        law_compliance_decides(s, signed, who, to, amount, list.drop_last(), answers);
    }
}

/// The token and its compliance contract together: if the answers are those of
/// a compliance contract at ledger `now`, a transfer that is made is between
/// two addresses that it allows, and one that a side of which it does not
/// allow is refused for that side, the sender first.
pub proof fn law_compliance_controls_transfers(
    s: AssetTokenView,
    c: ComplianceView,
    now: u32,
    signed: Seq<Address>,
    from: Address,
    to: Address,
    amount: i128,
)
    requires
        s.metadata is Some,
        !s.metadata->0.paused,
        signed.contains(from),
        amount > 0,
    ensures
        ({
            let answers = seq![allowed(c, now, from), allowed(c, now, to)];
            let refusal = transfer_refusal(s, signed, from, to, amount, answers);
            &&& refusal is None ==> allowed(c, now, from) && allowed(c, now, to)
            &&& !allowed(c, now, from) ==> refusal == Some(Abort::Error(Error::SenderNotCompliant))
            &&& allowed(c, now, from) && !allowed(c, now, to) ==> refusal == Some(
                Abort::Error(Error::RecipientNotCompliant),
            )
            &&& allowed(c, now, from) && allowed(c, now, to) && balance_of(s, from) >= amount
                && s.wf() ==> refusal is None
        }),
{
    let answers = seq![allowed(c, now, from), allowed(c, now, to)];
    if s.wf() {
        law_transfer_never_overflows(s, signed, from, to, amount, answers);
    }
}

/// A handover of the admin's role, in one step or in two, leaves the guardian,
/// the supply and everybody's balance. The new admin alone has the role then,
/// and nobody can take it by an earlier proposal. Both ways end the same.
pub proof fn law_handover_leaves_the_rest(
    s: AssetTokenView,
    signed: Seq<Address>,
    new_admin: Address,
    who: Address,
)
    requires
        s.metadata is Some,
        signed.contains(who),
    ensures
        ({
            let one_step = s.with_metadata(
                (AssetMetadataView { admin: new_admin, pending_admin: None, ..s.metadata->0 }),
            );
            let two_step = s.with_role(
                role_of(s).proposing(new_admin).held_by(new_admin).without_proposal(),
            );
            &&& one_step == two_step
            &&& one_step.balances == s.balances
            &&& one_step.metadata->0 == (AssetMetadataView {
                admin: new_admin,
                pending_admin: None,
                ..s.metadata->0
            })
            &&& token_admin_refusal(one_step, signed, who) is None <==> who == new_admin
            &&& accept_refusal(role_of(one_step), signed, who) == Some(RoleRefusal::NoPendingAdmin)
        }),
{
}

/// A transfer, a mint and a burn read the metadata and the balances of those
/// who take part, and write no other balance. Whatever else is in storage makes
/// no difference and is not touched.
pub proof fn law_movements_are_local(
    s: AssetTokenView,
    t: AssetTokenView,
    signed: Seq<Address>,
    who: Address,
    to: Address,
    amount: i128,
    answers: Seq<bool>,
    other: Address,
)
    requires
        s.metadata == t.metadata,
        agree(s.balances, t.balances, who),
        agree(s.balances, t.balances, to),
        other != who,
        other != to,
    ensures
        transfer_refusal(s, signed, who, to, amount, answers) == transfer_refusal(
            t,
            signed,
            who,
            to,
            amount,
            answers,
        ),
        mint_refusal(s, signed, who, to, amount, answers) == mint_refusal(
            t,
            signed,
            who,
            to,
            amount,
            answers,
        ),
        burn_refusal(s, signed, who, amount, answers) == burn_refusal(
            t,
            signed,
            who,
            amount,
            answers,
        ),
        s.moved(who, to, amount).metadata == t.moved(who, to, amount).metadata,
        agree(s.moved(who, to, amount).balances, t.moved(who, to, amount).balances, who),
        agree(s.moved(who, to, amount).balances, t.moved(who, to, amount).balances, to),
        agree(s.moved(who, to, amount).balances, s.balances, other),
        s.minted(to, amount).metadata == t.minted(to, amount).metadata,
        agree(s.minted(to, amount).balances, t.minted(to, amount).balances, to),
        agree(s.minted(to, amount).balances, s.balances, other),
        s.burned(who, amount).metadata == t.burned(who, amount).metadata,
        agree(s.burned(who, amount).balances, t.burned(who, amount).balances, who),
        agree(s.burned(who, amount).balances, s.balances, other),
{
}

/// Whether a list of mints has one to `who`.
pub open spec fn goes_to(list: Seq<(Address, i128)>, who: Address) -> bool {
    exists|i: int| 0 <= i < list.len() && (#[trigger] list[i]).0 == who
}

/// A batch reads the metadata and the balances of its recipients, and writes no
/// other balance. `among` are the addresses whose balances are known to be the
/// same.
pub proof fn law_batch_is_local(
    s: AssetTokenView,
    t: AssetTokenView,
    among: Set<Address>,
    list: Seq<(Address, i128)>,
    answers: Seq<bool>,
)
    requires
        s.metadata == t.metadata,
        forall|a: Address| #[trigger] among.contains(a) ==> agree(s.balances, t.balances, a),
        forall|i: int| 0 <= i < list.len() ==> among.contains((#[trigger] list[i]).0),
    ensures
        list_refusal(s, list, answers) == list_refusal(t, list, answers),
        s.batched(list).metadata == t.batched(list).metadata,
        forall|a: Address| #[trigger]
            among.contains(a) ==> agree(s.batched(list).balances, t.batched(list).balances, a),
        forall|a: Address|
            !#[trigger] goes_to(list, a) ==> agree(s.batched(list).balances, s.balances, a),
    decreases list.len(),
{
    if list.len() > 0 {
        let front = list.drop_last();
        let (to, amount) = list.last();
        assert forall|i: int| 0 <= i < front.len() implies among.contains((#[trigger] front[i]).0) by {
            assert(front[i] == list[i]);
        }
        law_batch_is_local(s, t, among, front, answers);
        assert(list[list.len() - 1] == (to, amount));
        assert(among.contains(to));
        assert(agree(s.batched(front).balances, t.batched(front).balances, to));
        assert forall|a: Address| #[trigger] among.contains(a) implies agree(
            s.batched(list).balances,
            t.batched(list).balances,
            a,
        ) by {
            assert(agree(s.batched(front).balances, t.batched(front).balances, a));
        }
        assert forall|a: Address| !#[trigger] goes_to(list, a) implies agree(
            s.batched(list).balances,
            s.balances,
            a,
        ) by {
            assert(a != to);
            if goes_to(front, a) {
                let k = choose|k: int| 0 <= k < front.len() && (#[trigger] front[k]).0 == a;
                assert(list[k].0 == a);
            }
            assert(agree(s.batched(front).balances, s.balances, a));
        }
    }
}

} // verus!
