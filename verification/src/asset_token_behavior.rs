//! What each call of the asset token is for, told by its inputs and results.
use vstd::prelude::*;

use crate::address::Address;
use crate::asset_token::{
    approval_refusal, balance_of, batch_refusal, burn_refusal, compliance_refusal, error_code,
    initialize_refusal, list_refusal, mint_events, mint_extensions, mint_refusal, pause_refusal,
    role_abort, role_of, text_fits, texts_fit, token_admin_refusal, transfer_refusal,
    valuation_refusal, Abort, AssetMetadata, AssetMetadataView, AssetTokenContract,
    AssetTokenView, DataKey, Error, Event,
};
use crate::asset_token_laws::{
    amount_of, amount_to, law_balances_within_supply,
};
use crate::invocation::Extension;
use crate::roles::{AdminRole, RoleRefusal};

verus! {

/// Whether `admin` is the admin on record and has authorized the call.
pub open spec fn acts_as_admin(s: AssetTokenView, signed: Seq<Address>, admin: Address) -> bool {
    s.metadata is Some && s.metadata->0.admin == admin && signed.contains(admin)
}

/// Whether the compliance contract was asked at least `n` times, and its first
/// `n` answers were yes.
pub open spec fn says_yes(answers: Seq<bool>, n: nat) -> bool {
    answers.len() >= n && forall|i: int| 0 <= i < n ==> #[trigger] answers[i]
}

/// Whether every amount of a list is positive.
pub open spec fn all_positive(list: Seq<(Address, i128)>) -> bool {
    forall|i: int| 0 <= i < list.len() ==> (#[trigger] list[i]).1 > 0
}

/// Whether nobody has less than nothing or more than the supply.
pub open spec fn within_supply(s: AssetTokenView) -> bool {
    forall|a: Address| 0 <= #[trigger] balance_of(s, a) <= s.metadata->0.total_supply
}

// ---- who may act ----
/// The admin on record can act with its signature, and nobody else can.
pub proof fn law_token_admin_can_act(s: AssetTokenView, signed: Seq<Address>, admin: Address)
    ensures
        ({
            let refusal = token_admin_refusal(s, signed, admin);
            &&& refusal is None <==> acts_as_admin(s, signed, admin)
            &&& s.metadata is None ==> refusal == Some(Abort::Error(Error::NotInitialized))
            &&& s.metadata is Some && !signed.contains(admin) ==> refusal == Some(
                Abort::Unsigned(admin),
            )
            &&& s.metadata is Some && signed.contains(admin) && s.metadata->0.admin != admin
                ==> refusal == Some(Abort::Error(Error::Unauthorized))
        }),
{
}

/// The role that acts is the one in the metadata; before there is any, nobody
/// has it.
pub proof fn law_role_is_in_the_metadata(s: AssetTokenView, role: AdminRole)
    ensures
        s.metadata is None ==> role_of(s).admin is None && role_of(s).pending is None,
        s.metadata is Some ==> role_of(s).admin == Some(s.metadata->0.admin) && role_of(s).pending
            == s.metadata->0.pending_admin,
        role.admin is Some ==> role_of(s.with_role(role)) == role,
{
}

/// What is wrong with the role is told to callers under the same name.
pub proof fn law_token_role_errors(who: Address)
    ensures
        role_abort(RoleRefusal::AlreadyInitialized) == Abort::Error(Error::AlreadyInitialized),
        role_abort(RoleRefusal::NotInitialized) == Abort::Error(Error::NotInitialized),
        role_abort(RoleRefusal::Unsigned(who)) == Abort::Unsigned(who),
        role_abort(RoleRefusal::Unauthorized) == Abort::Error(Error::Unauthorized),
        role_abort(RoleRefusal::NoPendingAdmin) == Abort::Error(Error::NoPendingAdmin),
{
}

/// An answer that is missing is asked for, of the contract and about the
/// address in question. A yes lets the call go on and a no ends it.
pub proof fn law_answers_decide(
    answers: Seq<bool>,
    i: int,
    compliance: Address,
    who: Address,
    e: Error,
)
    requires
        0 <= i,
    ensures
        i >= answers.len() ==> approval_refusal(answers, i, compliance, who, e) == Some(
            Abort::NeedsApproval { compliance, who },
        ),
        i < answers.len() && answers[i] ==> approval_refusal(answers, i, compliance, who, e)
            is None,
        i < answers.len() && !answers[i] ==> approval_refusal(answers, i, compliance, who, e)
            == Some(Abort::Error(e)),
{
}

// ---- initialization ----
/// A text fits with one byte, with the most that it may have, and with every
/// number between.
pub proof fn law_which_texts_fit(text: Seq<u8>, max: usize, m: AssetMetadataView)
    ensures
        text_fits(text, max) <==> text.len() >= 1 && text.len() <= max,
        texts_fit(m) <==> {
            &&& 1 <= m.name.len() <= 64
            &&& 1 <= m.symbol.len() <= 16
            &&& 1 <= m.asset_type.len() <= 32
            &&& 1 <= m.asset_description.len() <= 256
        },
{
}

/// Whoever signs, and is allowed by the compliance contract, can initialize a
/// token that is not initialized, with every supply and valuation that are not
/// negative and texts of the right length; otherwise the first of what is wrong
/// is told.
pub proof fn law_initialization_accepted(
    s: AssetTokenView,
    signed: Seq<Address>,
    m: AssetMetadataView,
    answers: Seq<bool>,
)
    ensures
        ({
            let refusal = initialize_refusal(s, signed, m, answers);
            let open = s.metadata is None && signed.contains(m.admin);
            let amounts = m.total_supply >= 0 && m.valuation >= 0;
            let texts = 1 <= m.name.len() <= 64 && 1 <= m.symbol.len() <= 16 && 1
                <= m.asset_type.len() <= 32 && 1 <= m.asset_description.len() <= 256;
            &&& refusal is None <==> open && amounts && texts && says_yes(answers, 1)
            &&& s.metadata is Some ==> refusal == Some(Abort::Error(Error::AlreadyInitialized))
            &&& s.metadata is None && !signed.contains(m.admin) ==> refusal == Some(
                Abort::Unsigned(m.admin),
            )
            &&& open && !amounts ==> refusal == Some(Abort::Error(Error::InvalidAmount))
            &&& open && amounts && !texts ==> refusal == Some(Abort::Error(Error::InvalidInput))
            &&& open && amounts && texts && answers.len() == 0 ==> refusal == Some(
                Abort::NeedsApproval { compliance: m.compliance_contract, who: m.admin },
            )
            &&& open && amounts && texts && answers.len() > 0 && !answers[0] ==> refusal == Some(
                Abort::Error(Error::RecipientNotCompliant),
            )
        }),
{
}

/// Initialization takes the metadata as given and gives the admin the whole
/// supply.
pub proof fn law_initialization_funds_the_admin(
    s: AssetTokenView,
    m: AssetMetadataView,
    other: Address,
)
    ensures
        AssetTokenView::blank().metadata is None,
        balance_of(AssetTokenView::blank(), other) == 0,
        !AssetTokenView::blank().balances.contains_key(other),
        s.initialized(m).metadata == Some(m),
        balance_of(s.initialized(m), m.admin) == m.total_supply,
        other != m.admin ==> balance_of(s.initialized(m), other) == balance_of(s, other),
{
}

// ---- moving the asset ----
/// A signed transfer of a positive amount that the sender has, in a token that
/// is not paused and between two parties that compliance says yes to, is
/// accepted, whoever they are; otherwise the first of what is wrong is told.
pub proof fn law_transfer_accepted(
    s: AssetTokenView,
    signed: Seq<Address>,
    from: Address,
    to: Address,
    amount: i128,
    answers: Seq<bool>,
)
    ensures
        ({
            let refusal = transfer_refusal(s, signed, from, to, amount, answers);
            let m = s.metadata->0;
            let asked = signed.contains(from) && amount > 0 && s.metadata is Some && !m.paused;
            let yes = asked && says_yes(answers, 2);
            let covered = balance_of(s, from) >= amount;
            let room = from == to || balance_of(s, to) + amount <= i128::MAX;
            &&& refusal is None <==> yes && covered && room
            &&& !signed.contains(from) ==> refusal == Some(Abort::Unsigned(from))
            &&& signed.contains(from) && amount <= 0 ==> refusal == Some(
                Abort::Error(Error::InvalidAmount),
            )
            &&& signed.contains(from) && amount > 0 && s.metadata is None ==> refusal == Some(
                Abort::Error(Error::NotInitialized),
            )
            &&& signed.contains(from) && amount > 0 && s.metadata is Some && m.paused ==> refusal
                == Some(Abort::Error(Error::Paused))
            &&& asked && answers.len() == 0 ==> refusal == Some(
                Abort::NeedsApproval { compliance: m.compliance_contract, who: from },
            )
            &&& asked && answers.len() >= 1 && !answers[0] ==> refusal == Some(
                Abort::Error(Error::SenderNotCompliant),
            )
            &&& asked && answers.len() == 1 && answers[0] ==> refusal == Some(
                Abort::NeedsApproval { compliance: m.compliance_contract, who: to },
            )
            &&& asked && answers.len() >= 2 && answers[0] && !answers[1] ==> refusal == Some(
                Abort::Error(Error::RecipientNotCompliant),
            )
            &&& yes && !covered ==> refusal == Some(Abort::Error(Error::InsufficientBalance))
            &&& yes && covered && !room ==> refusal == Some(Abort::Error(Error::Overflow))
        }),
{
}

/// In a token in order no transfer fails for want of room: a covered, signed
/// and approved one is accepted.
pub proof fn law_any_holder_can_transfer(
    s: AssetTokenView,
    signed: Seq<Address>,
    from: Address,
    to: Address,
    amount: i128,
    answers: Seq<bool>,
)
    requires
        s.wf(),
        s.metadata is Some,
        !s.metadata->0.paused,
        signed.contains(from),
        0 < amount <= balance_of(s, from),
        says_yes(answers, 2),
    ensures
        transfer_refusal(s, signed, from, to, amount, answers) is None,
{
    law_balances_within_supply(s, from, to);
}

/// A transfer takes the amount from one balance and adds it to another, and
/// changes nothing else. A transfer to oneself changes nothing at all.
pub proof fn law_transfer_moves_the_amount(
    s: AssetTokenView,
    from: Address,
    to: Address,
    amount: i128,
    other: Address,
)
    requires
        0 < amount <= balance_of(s, from),
        from == to || balance_of(s, to) + amount <= i128::MAX,
    ensures
        s.moved(from, to, amount).metadata == s.metadata,
        from != to ==> balance_of(s.moved(from, to, amount), from) == balance_of(s, from) - amount,
        from != to ==> balance_of(s.moved(from, to, amount), to) == balance_of(s, to) + amount,
        from == to ==> s.moved(from, to, amount) == s,
        other != from && other != to ==> balance_of(s.moved(from, to, amount), other) == balance_of(
            s,
            other,
        ),
{
}

// ---- minting ----
/// The admin can mint every positive amount for which there is room, to every
/// address that compliance says yes to, while the token is not paused;
/// otherwise the first of what is wrong is told.
pub proof fn law_mint_accepted(
    s: AssetTokenView,
    signed: Seq<Address>,
    admin: Address,
    to: Address,
    amount: i128,
    answers: Seq<bool>,
)
    ensures
        ({
            let refusal = mint_refusal(s, signed, admin, to, amount, answers);
            let m = s.metadata->0;
            let may = acts_as_admin(s, signed, admin);
            let asked = may && amount > 0 && !m.paused;
            let room = m.total_supply + amount <= i128::MAX && balance_of(s, to) + amount
                <= i128::MAX;
            &&& refusal is None <==> asked && says_yes(answers, 1) && room
            &&& s.metadata is None ==> refusal == Some(Abort::Error(Error::NotInitialized))
            &&& s.metadata is Some && !signed.contains(admin) ==> refusal == Some(
                Abort::Unsigned(admin),
            )
            &&& s.metadata is Some && signed.contains(admin) && m.admin != admin ==> refusal
                == Some(Abort::Error(Error::Unauthorized))
            &&& may && amount <= 0 ==> refusal == Some(Abort::Error(Error::InvalidAmount))
            &&& may && amount > 0 && m.paused ==> refusal == Some(Abort::Error(Error::Paused))
            &&& asked && answers.len() == 0 ==> refusal == Some(
                Abort::NeedsApproval { compliance: m.compliance_contract, who: to },
            )
            &&& asked && answers.len() > 0 && !answers[0] ==> refusal == Some(
                Abort::Error(Error::RecipientNotCompliant),
            )
            &&& asked && says_yes(answers, 1) && !room ==> refusal == Some(
                Abort::Error(Error::Overflow),
            )
        }),
{
}

/// A mint adds the amount to the supply and to one balance, and changes nothing
/// else.
pub proof fn law_mint_gives_the_amount(
    s: AssetTokenView,
    to: Address,
    amount: i128,
    other: Address,
)
    requires
        s.metadata is Some,
        amount > 0,
        s.metadata->0.total_supply + amount <= i128::MAX,
        balance_of(s, to) + amount <= i128::MAX,
    ensures
        ({
            let t = s.minted(to, amount);
            &&& t.metadata is Some
            &&& t.metadata->0.total_supply == s.metadata->0.total_supply + amount
            &&& same_but_supply(t.metadata->0, s.metadata->0)
            &&& balance_of(t, to) == balance_of(s, to) + amount
            &&& other != to ==> balance_of(t, other) == balance_of(s, other)
        }),
{
}

/// Whether two tokens are described alike but for the supply.
pub open spec fn same_but_supply(a: AssetMetadataView, b: AssetMetadataView) -> bool {
    &&& a.name == b.name
    &&& a.symbol == b.symbol
    &&& a.asset_type == b.asset_type
    &&& a.decimals == b.decimals
    &&& a.admin == b.admin
    &&& a.compliance_contract == b.compliance_contract
    &&& a.asset_description == b.asset_description
    &&& a.valuation == b.valuation
    &&& a.paused == b.paused
    &&& a.guardian == b.guardian
    &&& a.pending_admin == b.pending_admin
}

/// A list of positive mints for which the supply has room gives every address
/// what the list has for it, adds the whole to the supply, and changes nothing
/// else.
pub proof fn law_batch_gives_the_amounts(s: AssetTokenView, list: Seq<(Address, i128)>)
    requires
        s.metadata is Some,
        within_supply(s),
        all_positive(list),
        s.metadata->0.total_supply + amount_of(list) <= i128::MAX,
    ensures
        ({
            let t = s.batched(list);
            &&& t.metadata is Some
            &&& t.metadata->0.total_supply == s.metadata->0.total_supply + amount_of(list)
            &&& same_but_supply(t.metadata->0, s.metadata->0)
            &&& forall|a: Address| #[trigger]
                balance_of(t, a) == balance_of(s, a) + amount_to(list, a)
            &&& forall|a: Address| 0 <= #[trigger] amount_to(list, a) <= amount_of(list)
        }),
    decreases list.len(),
{
    if list.len() > 0 {
        let front = list.drop_last();
        let (to, amount) = list.last();
        lemma_positive_front(list);
        law_batch_gives_the_amounts(s, front);
        let mid = s.batched(front);
        let t = s.batched(list);
        assert(balance_of(s, to) <= s.metadata->0.total_supply);
        assert(amount_to(front, to) <= amount_of(front));
        assert(balance_of(mid, to) == balance_of(s, to) + amount_to(front, to));
        assert forall|a: Address| #[trigger]
            balance_of(t, a) == balance_of(s, a) + amount_to(list, a) by {
            assert(balance_of(mid, a) == balance_of(s, a) + amount_to(front, a));
        }
        assert forall|a: Address| 0 <= #[trigger] amount_to(list, a) <= amount_of(list) by {
            assert(0 <= amount_to(front, a) <= amount_of(front));
        }
    }
}

/// The beginning of a list of positive amounts is one too.
proof fn lemma_positive_front(list: Seq<(Address, i128)>)
    requires
        list.len() > 0,
        all_positive(list),
    ensures
        all_positive(list.drop_last()),
        list.last().1 > 0,
        amount_of(list.drop_last()) + list.last().1 == amount_of(list),
{
    let front = list.drop_last();
    assert(list[list.len() - 1].1 > 0);
    assert forall|i: int| 0 <= i < front.len() implies (#[trigger] front[i]).1 > 0 by {
        assert(front[i] == list[i]);
    }
}

/// A list of mints of any length is accepted exactly if every amount is
/// positive, compliance says yes to every recipient, and the supply has room
/// for the whole.
pub proof fn law_batch_list_accepted(
    s: AssetTokenView,
    list: Seq<(Address, i128)>,
    answers: Seq<bool>,
)
    requires
        s.metadata is Some,
        within_supply(s),
    ensures
        list_refusal(s, list, answers) is None <==> all_positive(list) && says_yes(
            answers,
            list.len(),
        ) && s.metadata->0.total_supply + amount_of(list) <= i128::MAX,
    decreases list.len(),
{
    if list.len() > 0 {
        let front = list.drop_last();
        let (to, amount) = list.last();
        let n = front.len();
        law_batch_list_accepted(s, front, answers);
        assert(list[n as int] == list.last());
        if all_positive(list) {
            lemma_positive_front(list);
        }
        if says_yes(answers, list.len()) {
            assert(answers[n as int]);
        }
        if list_refusal(s, front, answers) is None {
            law_batch_gives_the_amounts(s, front);
            assert(balance_of(s.batched(front), to) == balance_of(s, to) + amount_to(front, to));
            assert(balance_of(s, to) <= s.metadata->0.total_supply);
            assert(amount_to(front, to) <= amount_of(front));
            if list_refusal(s, list, answers) is None {
                assert forall|i: int| 0 <= i < list.len() implies (#[trigger] list[i]).1 > 0 by {
                    if i < n {
                        assert(front[i] == list[i]);
                    }
                }
                assert forall|i: int| 0 <= i < list.len() implies #[trigger] answers[i] by {
                    if i < n {
                        assert(says_yes(answers, n));
                    }
                }
            }
        }
    }
}

/// A list of mints is refused for its first bad one, whatever comes after: one
/// that is not positive, that compliance was not asked about, that it says no
/// to, or that there is no room for.
pub proof fn law_first_bad_mint_decides(
    s: AssetTokenView,
    list: Seq<(Address, i128)>,
    answers: Seq<bool>,
    mint: (Address, i128),
)
    requires
        s.metadata is Some,
        within_supply(s),
    ensures
        ({
            let refusal = list_refusal(s, list.push(mint), answers);
            let n = list.len();
            let sum = s.metadata->0.total_supply + amount_of(list) + mint.1;
            &&& list_refusal(s, Seq::empty(), answers) is None
            &&& list_refusal(s, list, answers) is Some ==> refusal == list_refusal(s, list, answers)
            &&& list_refusal(s, list, answers) is None ==> {
                &&& mint.1 <= 0 ==> refusal == Some(Abort::Error(Error::InvalidAmount))
                &&& mint.1 > 0 && answers.len() <= n ==> refusal == Some(
                    Abort::NeedsApproval {
                        compliance: s.metadata->0.compliance_contract,
                        who: mint.0,
                    },
                )
                &&& mint.1 > 0 && answers.len() > n && !answers[n as int] ==> refusal == Some(
                    Abort::Error(Error::RecipientNotCompliant),
                )
                &&& mint.1 > 0 && answers.len() > n && answers[n as int] && sum > i128::MAX
                    ==> refusal == Some(Abort::Error(Error::Overflow))
                &&& mint.1 > 0 && answers.len() > n && answers[n as int] && sum <= i128::MAX
                    ==> refusal is None
            }
        }),
{
    assert(list.push(mint).drop_last() =~= list);
    if list_refusal(s, list, answers) is None {
        law_batch_list_accepted(s, list, answers);
        law_batch_gives_the_amounts(s, list);
        let to = mint.0;
        assert(balance_of(s.batched(list), to) == balance_of(s, to) + amount_to(list, to));
        assert(balance_of(s, to) <= s.metadata->0.total_supply);
        assert(amount_to(list, to) <= amount_of(list));
    }
}

/// In a token in order the admin can mint a list of any length while the token
/// is not paused, exactly if every amount is positive, compliance says yes to
/// every recipient and the supply has room for the whole.
pub proof fn law_batch_accepted(
    s: AssetTokenView,
    signed: Seq<Address>,
    admin: Address,
    list: Seq<(Address, i128)>,
    answers: Seq<bool>,
)
    requires
        s.wf(),
    ensures
        ({
            let refusal = batch_refusal(s, signed, admin, list, answers);
            let m = s.metadata->0;
            let may = acts_as_admin(s, signed, admin);
            &&& refusal is None <==> may && !m.paused && all_positive(list) && says_yes(
                answers,
                list.len(),
            ) && m.total_supply + amount_of(list) <= i128::MAX
            &&& s.metadata is None ==> refusal == Some(Abort::Error(Error::NotInitialized))
            &&& s.metadata is Some && !signed.contains(admin) ==> refusal == Some(
                Abort::Unsigned(admin),
            )
            &&& s.metadata is Some && signed.contains(admin) && m.admin != admin ==> refusal
                == Some(Abort::Error(Error::Unauthorized))
            &&& may && m.paused ==> refusal == Some(Abort::Error(Error::Paused))
            &&& may && !m.paused ==> refusal == list_refusal(s, list, answers)
        }),
{
    if s.metadata is Some {
        law_tokens_in_order_are_within_supply(s);
        law_batch_list_accepted(s, list, answers);
    }
}

/// In a token in order nobody has less than nothing or more than the supply.
pub proof fn law_tokens_in_order_are_within_supply(s: AssetTokenView)
    requires
        s.wf(),
        s.metadata is Some,
    ensures
        within_supply(s),
        s.metadata->0.total_supply >= 0,
{
    assert forall|a: Address| 0 <= #[trigger] balance_of(s, a) <= s.metadata->0.total_supply by {
        law_balances_within_supply(s, a, a);
    }
    assert(balance_of(s, s.metadata->0.admin) >= 0);
}

/// A list of mints publishes one event and extends one lifetime for each, in
/// order.
pub proof fn law_batch_tells_of_each(list: Seq<(Address, i128)>, i: int)
    ensures
        mint_events(list).len() == list.len(),
        mint_extensions(list).len() == list.len(),
        0 <= i < list.len() ==> mint_events(list)[i] == (Event::Mint {
            to: list[i].0,
            amount: list[i].1,
        }),
        0 <= i < list.len() ==> mint_extensions(list)[i] == Extension::Entry(
            DataKey::Balance(list[i].0),
        ),
{
}

// ---- burning ----
/// A signed burn of a positive amount that the holder has and that compliance
/// says yes to is accepted while the token is not paused, whoever the holder
/// is; otherwise the first of what is wrong is told.
pub proof fn law_burn_accepted(
    s: AssetTokenView,
    signed: Seq<Address>,
    from: Address,
    amount: i128,
    answers: Seq<bool>,
)
    ensures
        ({
            let refusal = burn_refusal(s, signed, from, amount, answers);
            let m = s.metadata->0;
            let asked = signed.contains(from) && amount > 0 && s.metadata is Some && !m.paused;
            let yes = asked && says_yes(answers, 1);
            let covered = balance_of(s, from) >= amount;
            let room = m.total_supply - amount >= i128::MIN;
            &&& refusal is None <==> yes && covered && room
            &&& !signed.contains(from) ==> refusal == Some(Abort::Unsigned(from))
            &&& signed.contains(from) && amount <= 0 ==> refusal == Some(
                Abort::Error(Error::InvalidAmount),
            )
            &&& signed.contains(from) && amount > 0 && s.metadata is None ==> refusal == Some(
                Abort::Error(Error::NotInitialized),
            )
            &&& signed.contains(from) && amount > 0 && s.metadata is Some && m.paused ==> refusal
                == Some(Abort::Error(Error::Paused))
            &&& asked && answers.len() == 0 ==> refusal == Some(
                Abort::NeedsApproval { compliance: m.compliance_contract, who: from },
            )
            &&& asked && answers.len() > 0 && !answers[0] ==> refusal == Some(
                Abort::Error(Error::SenderNotCompliant),
            )
            &&& yes && !covered ==> refusal == Some(Abort::Error(Error::InsufficientBalance))
            &&& yes && covered && !room ==> refusal == Some(Abort::Error(Error::Overflow))
        }),
{
}

/// In a token in order every holder can burn what it has.
pub proof fn law_any_holder_can_burn(
    s: AssetTokenView,
    signed: Seq<Address>,
    from: Address,
    amount: i128,
    answers: Seq<bool>,
)
    requires
        s.wf(),
        s.metadata is Some,
        !s.metadata->0.paused,
        signed.contains(from),
        0 < amount <= balance_of(s, from),
        says_yes(answers, 1),
    ensures
        burn_refusal(s, signed, from, amount, answers) is None,
{
    law_tokens_in_order_are_within_supply(s);
}

/// A burn takes the amount from the supply and from one balance, and changes
/// nothing else.
pub proof fn law_burn_takes_the_amount(
    s: AssetTokenView,
    from: Address,
    amount: i128,
    other: Address,
)
    requires
        s.metadata is Some,
        0 < amount <= balance_of(s, from),
        s.metadata->0.total_supply - amount >= i128::MIN,
    ensures
        ({
            let t = s.burned(from, amount);
            &&& t.metadata is Some
            &&& t.metadata->0.total_supply == s.metadata->0.total_supply - amount
            &&& same_but_supply(t.metadata->0, s.metadata->0)
            &&& balance_of(t, from) == balance_of(s, from) - amount
            &&& other != from ==> balance_of(t, other) == balance_of(s, other)
        }),
{
}

// ---- administration ----
/// The admin and the guardian can pause, each with its signature, whether the
/// token is paused or not; otherwise the first of what is wrong is told.
pub proof fn law_pause_accepted(s: AssetTokenView, signed: Seq<Address>, caller: Address)
    ensures
        ({
            let refusal = pause_refusal(s, signed, caller);
            let m = s.metadata->0;
            let known = m.admin == caller || m.guardian == Some(caller);
            &&& refusal is None <==> signed.contains(caller) && s.metadata is Some && known
            &&& !signed.contains(caller) ==> refusal == Some(Abort::Unsigned(caller))
            &&& signed.contains(caller) && s.metadata is None ==> refusal == Some(
                Abort::Error(Error::NotInitialized),
            )
            &&& signed.contains(caller) && s.metadata is Some && !known ==> refusal == Some(
                Abort::Error(Error::Unauthorized),
            )
        }),
{
}

/// The admin can set every valuation that is not negative, whatever the
/// valuation on record.
pub proof fn law_valuation_accepted(
    s: AssetTokenView,
    signed: Seq<Address>,
    admin: Address,
    new_valuation: i128,
)
    ensures
        ({
            let refusal = valuation_refusal(s, signed, admin, new_valuation);
            let may = acts_as_admin(s, signed, admin);
            &&& refusal is None <==> may && new_valuation >= 0
            &&& may && new_valuation < 0 ==> refusal == Some(Abort::Error(Error::InvalidAmount))
            &&& s.metadata is None ==> refusal == Some(Abort::Error(Error::NotInitialized))
            &&& s.metadata is Some && !signed.contains(admin) ==> refusal == Some(
                Abort::Unsigned(admin),
            )
            &&& s.metadata is Some && signed.contains(admin) && s.metadata->0.admin != admin
                ==> refusal == Some(Abort::Error(Error::Unauthorized))
        }),
{
}

/// The admin can move to every compliance contract that allows the admin; it is
/// the new contract that is asked.
pub proof fn law_compliance_change_accepted(
    s: AssetTokenView,
    signed: Seq<Address>,
    admin: Address,
    compliance: Address,
    answers: Seq<bool>,
)
    ensures
        ({
            let refusal = compliance_refusal(s, signed, admin, compliance, answers);
            let may = acts_as_admin(s, signed, admin);
            &&& refusal is None <==> may && says_yes(answers, 1)
            &&& may && answers.len() == 0 ==> refusal == Some(
                Abort::NeedsApproval { compliance, who: admin },
            )
            &&& may && answers.len() > 0 && !answers[0] ==> refusal == Some(
                Abort::Error(Error::InvalidCompliance),
            )
            &&& s.metadata is None ==> refusal == Some(Abort::Error(Error::NotInitialized))
            &&& s.metadata is Some && !signed.contains(admin) ==> refusal == Some(
                Abort::Unsigned(admin),
            )
            &&& s.metadata is Some && signed.contains(admin) && s.metadata->0.admin != admin
                ==> refusal == Some(Abort::Error(Error::Unauthorized))
        }),
{
}

/// Administration moves nothing: other metadata replace the metadata alone, and
/// another role the role alone.
pub proof fn law_administration_moves_nothing(
    s: AssetTokenView,
    m: AssetMetadataView,
    role: AdminRole,
)
    requires
        s.metadata is Some,
        role.admin is Some,
    ensures
        s.with_metadata(m).metadata == Some(m),
        s.with_metadata(m).balances == s.balances,
        s.with_role(role).balances == s.balances,
        s.with_role(role).metadata == Some(
            (AssetMetadataView {
                admin: role.admin->0,
                pending_admin: role.pending,
                ..s.metadata->0
            }),
        ),
{
}

/// A balance is what is on file, and nothing where nothing is.
pub proof fn law_balances_are_on_file(s: AssetTokenView, who: Address)
    ensures
        s.balances.contains_key(who) ==> balance_of(s, who) == s.balances[who],
        !s.balances.contains_key(who) ==> balance_of(s, who) == 0,
{
}

/// What is said of a token is what it stores, entry for entry.
pub proof fn law_token_is_seen_whole(c: AssetTokenContract, m: AssetMetadata, who: Address)
    ensures
        c@.balances.contains_key(who) <==> c.balances@.contains_key(who),
        c@.balances[who] == c.balances@[who],
        c@.metadata is Some <==> c.metadata is Some,
        c.metadata == Some(m) ==> c@.metadata == Some(m@),
        m@.name == m.name@,
        m@.symbol == m.symbol@,
        m@.asset_type == m.asset_type@,
        m@.total_supply == m.total_supply,
        m@.decimals == m.decimals,
        m@.admin == m.admin,
        m@.compliance_contract == m.compliance_contract,
        m@.asset_description == m.asset_description@,
        m@.valuation == m.valuation,
        m@.paused == m.paused,
        m@.guardian == m.guardian,
        m@.pending_admin == m.pending_admin,
{
}

/// Every error has a number of its own, which does not change.
pub proof fn law_asset_token_error_numbers(a: Error, b: Error)
    ensures
        error_code(a) == error_code(b) ==> a == b,
        1 <= error_code(a) <= 12,
        error_code(Error::AlreadyInitialized) == 1,
        error_code(Error::NotInitialized) == 2,
        error_code(Error::Unauthorized) == 3,
        error_code(Error::InsufficientBalance) == 4,
        error_code(Error::InvalidAmount) == 5,
        error_code(Error::Paused) == 6,
        error_code(Error::SenderNotCompliant) == 7,
        error_code(Error::RecipientNotCompliant) == 8,
        error_code(Error::Overflow) == 9,
        error_code(Error::InvalidInput) == 10,
        error_code(Error::InvalidCompliance) == 11,
        error_code(Error::NoPendingAdmin) == 12,
{
}

} // verus!
