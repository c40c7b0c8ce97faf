//! The administrator of a contract, and its two-step handover.
//!
//! A handover takes a proposal by the administrator and an acceptance by the
//! proposed successor. The role moves at the acceptance and nowhere else, so a
//! mistyped successor costs nothing: the administrator proposes again or
//! cancels.
use vstd::prelude::*;

use crate::address::{listed, Address};

verus! {

/// Who administers a contract, and who is proposed as the next administrator.
#[derive(Clone, Copy, Debug, PartialEq, Eq)]
pub struct AdminRole {
    /// Absent until the contract is initialized.
    pub admin: Option<Address>,
    /// Absent while no proposal is in flight.
    pub pending: Option<Address>,
}

/// Why an act on the administrator's role is refused.
#[derive(Clone, Copy, Debug, PartialEq, Eq, Structural)]
pub enum RoleRefusal {
    AlreadyInitialized,
    NotInitialized,
    /// The address has not authorized the call.
    Unsigned(Address),
    Unauthorized,
    NoPendingAdmin,
}

/// Why `admin` may not act as the administrator, with `signed` the addresses
/// that have authorized the call; `None` if it may.
pub open spec fn admin_refusal(
    role: AdminRole,
    signed: Seq<Address>,
    admin: Address,
) -> Option<RoleRefusal> {
    if role.admin is None {
        Some(RoleRefusal::NotInitialized)
    } else if !signed.contains(admin) {
        Some(RoleRefusal::Unsigned(admin))
    } else if role.admin != Some(admin) {
        Some(RoleRefusal::Unauthorized)
    } else {
        None
    }
}

/// Why the first administrator may not be set to `admin`.
pub open spec fn init_refusal(
    role: AdminRole,
    signed: Seq<Address>,
    admin: Address,
) -> Option<RoleRefusal> {
    if role.admin is Some {
        Some(RoleRefusal::AlreadyInitialized)
    } else if !signed.contains(admin) {
        Some(RoleRefusal::Unsigned(admin))
    } else {
        None
    }
}

/// Why `admin` may not withdraw the proposal in flight.
pub open spec fn cancel_refusal(
    role: AdminRole,
    signed: Seq<Address>,
    admin: Address,
) -> Option<RoleRefusal> {
    if admin_refusal(role, signed, admin) is Some {
        admin_refusal(role, signed, admin)
    } else if role.pending is None {
        Some(RoleRefusal::NoPendingAdmin)
    } else {
        None
    }
}

/// Why `successor` may not accept the role.
pub open spec fn accept_refusal(
    role: AdminRole,
    signed: Seq<Address>,
    successor: Address,
) -> Option<RoleRefusal> {
    if !signed.contains(successor) {
        Some(RoleRefusal::Unsigned(successor))
    } else if role.pending is None {
        Some(RoleRefusal::NoPendingAdmin)
    } else if role.pending != Some(successor) {
        Some(RoleRefusal::Unauthorized)
    } else if role.admin is None {
        Some(RoleRefusal::NotInitialized)
    } else {
        None
    }
}

impl AdminRole {
    /// The role of a contract that is not initialized.
    pub open spec fn vacant() -> AdminRole {
        AdminRole { admin: None, pending: None }
    }

    /// The role once `admin` is set as the administrator.
    pub open spec fn held_by(self, admin: Address) -> AdminRole {
        AdminRole { admin: Some(admin), ..self }
    }

    /// The role once `successor` is proposed.
    pub open spec fn proposing(self, successor: Address) -> AdminRole {
        AdminRole { pending: Some(successor), ..self }
    }

    /// The role once the proposal in flight is gone.
    pub open spec fn without_proposal(self) -> AdminRole {
        AdminRole { pending: None, ..self }
    }

    /// A proposal is in flight only where there is an administrator.
    pub open spec fn wf(self) -> bool {
        self.pending is Some ==> self.admin is Some
    }

    /// The role of a contract that is not initialized.
    pub fn new() -> (r: AdminRole)
        ensures
            r == AdminRole::vacant(),
    {
        AdminRole { admin: None, pending: None }
    }

    /// Whether `admin` may act as the administrator.
    pub fn check_admin(&self, signed: &Vec<Address>, admin: Address) -> (r: Result<
        (),
        RoleRefusal,
    >)
        ensures
            match r {
                Ok(_) => admin_refusal(*self, signed@, admin) is None,
                Err(e) => admin_refusal(*self, signed@, admin) == Some(e),
            },
    {
        match self.admin {
            None => Err(RoleRefusal::NotInitialized),
            Some(stored) => if !listed(signed, admin) {
                Err(RoleRefusal::Unsigned(admin))
            } else if stored != admin {
                Err(RoleRefusal::Unauthorized)
            } else {
                Ok(())
            },
        }
    }

    /// Sets the first administrator. Possible once.
    pub fn initialize(&mut self, signed: &Vec<Address>, admin: Address) -> (r: Result<
        (),
        RoleRefusal,
    >)
        ensures
            match r {
                Ok(_) => {
                    &&& init_refusal(*old(self), signed@, admin) is None
                    &&& *final(self) == old(self).held_by(admin)
                },
                Err(e) => {
                    &&& init_refusal(*old(self), signed@, admin) == Some(e)
                    &&& *final(self) == *old(self)
                },
            },
    {
        if self.admin.is_some() {
            return Err(RoleRefusal::AlreadyInitialized);
        }
        if !listed(signed, admin) {
            return Err(RoleRefusal::Unsigned(admin));
        }
        self.admin = Some(admin);
        Ok(())
    }

    /// Proposes `successor`. The role does not move yet.
    pub fn propose(&mut self, signed: &Vec<Address>, admin: Address, successor: Address) -> (r:
        Result<(), RoleRefusal>)
        ensures
            match r {
                Ok(_) => {
                    &&& admin_refusal(*old(self), signed@, admin) is None
                    &&& *final(self) == old(self).proposing(successor)
                },
                Err(e) => {
                    &&& admin_refusal(*old(self), signed@, admin) == Some(e)
                    &&& *final(self) == *old(self)
                },
            },
    {
        match self.check_admin(signed, admin) {
            Ok(_) => {
                self.pending = Some(successor);
                Ok(())
            },
            Err(e) => Err(e),
        }
    }

    /// Withdraws the proposal in flight.
    pub fn cancel(&mut self, signed: &Vec<Address>, admin: Address) -> (r: Result<(), RoleRefusal>)
        ensures
            match r {
                Ok(_) => {
                    &&& cancel_refusal(*old(self), signed@, admin) is None
                    &&& *final(self) == old(self).without_proposal()
                },
                Err(e) => {
                    &&& cancel_refusal(*old(self), signed@, admin) == Some(e)
                    &&& *final(self) == *old(self)
                },
            },
    {
        match self.check_admin(signed, admin) {
            Ok(_) => {
                if self.pending.is_none() {
                    return Err(RoleRefusal::NoPendingAdmin);
                }
                self.pending = None;
                Ok(())
            },
            Err(e) => Err(e),
        }
    }

    /// Moves the role to `successor`, which must be the one proposed. Returns
    /// the administrator before.
    pub fn accept(&mut self, signed: &Vec<Address>, successor: Address) -> (r: Result<
        Address,
        RoleRefusal,
    >)
        ensures
            match r {
                Ok(before) => {
                    &&& accept_refusal(*old(self), signed@, successor) is None
                    &&& old(self).admin == Some(before)
                    &&& *final(self) == old(self).held_by(successor).without_proposal()
                },
                Err(e) => {
                    &&& accept_refusal(*old(self), signed@, successor) == Some(e)
                    &&& *final(self) == *old(self)
                },
            },
    {
        if !listed(signed, successor) {
            return Err(RoleRefusal::Unsigned(successor));
        }
        match self.pending {
            None => Err(RoleRefusal::NoPendingAdmin),
            Some(pending) => if pending != successor {
                Err(RoleRefusal::Unauthorized)
            } else {
                match self.admin {
                    None => Err(RoleRefusal::NotInitialized),
                    Some(before) => {
                        self.admin = Some(successor);
                        self.pending = None;
                        Ok(before)
                    },
                }
            },
        }
    }
}

/// A proposal does not move the role, and whoever administers keeps every
/// power: the same calls are refused before and after.
pub proof fn law_proposal_moves_nothing(
    role: AdminRole,
    successor: Address,
    signed: Seq<Address>,
    who: Address,
)
    ensures
        role.proposing(successor).admin == role.admin,
        admin_refusal(role.proposing(successor), signed, who) == admin_refusal(role, signed, who),
{
}

/// Withdrawing a proposal leaves no trace of it: the role is as it was, with
/// nothing proposed, and nobody can accept any more.
pub proof fn law_cancel_undoes_proposal(
    role: AdminRole,
    successor: Address,
    signed: Seq<Address>,
    who: Address,
)
    ensures
        role.proposing(successor).without_proposal() == role.without_proposal(),
        signed.contains(who) ==> accept_refusal(
            role.proposing(successor).without_proposal(),
            signed,
            who,
        ) == Some(RoleRefusal::NoPendingAdmin),
{
}

/// A second proposal takes the place of the first, whose successor is then
/// refused unless it is the same one.
pub proof fn law_proposal_overwrites(
    role: AdminRole,
    first: Address,
    second: Address,
    signed: Seq<Address>,
)
    requires
        first != second,
    ensures
        role.proposing(first).proposing(second) == role.proposing(second),
        signed.contains(first) ==> accept_refusal(
            role.proposing(first).proposing(second),
            signed,
            first,
        ) == Some(RoleRefusal::Unauthorized),
{
}

/// Only the proposed successor, having signed, can accept; after that it
/// administers, nothing is proposed, and the administrator before has lost the
/// role unless it was itself the successor.
pub proof fn law_acceptance_hands_over(
    role: AdminRole,
    admin: Address,
    successor: Address,
    signed: Seq<Address>,
    who: Address,
)
    requires
        role.admin == Some(admin),
    ensures
        accept_refusal(role.proposing(successor), signed, who) is None <==> who == successor
            && signed.contains(who),
        ({
            let after = role.proposing(successor).held_by(successor).without_proposal();
            &&& after.admin == Some(successor)
            &&& after.pending is None
            &&& signed.contains(successor) ==> admin_refusal(after, signed, successor) is None
            &&& admin != successor && signed.contains(admin) ==> admin_refusal(
                after,
                signed,
                admin,
            ) == Some(RoleRefusal::Unauthorized)
        }),
{
}

/// At most one address can act as the administrator, and only once a contract
/// is initialized.
pub proof fn law_single_administrator(
    role: AdminRole,
    signed: Seq<Address>,
    one: Address,
    other: Address,
)
    requires
        admin_refusal(role, signed, one) is None,
        admin_refusal(role, signed, other) is None,
    ensures
        one == other,
        role.admin == Some(one),
{
}

/// A contract is initialized once: whatever is done with the role afterwards,
/// it keeps an administrator and refuses to be initialized again.
pub proof fn law_initialized_once(
    role: AdminRole,
    successor: Address,
    signed: Seq<Address>,
    who: Address,
)
    requires
        role.admin is Some,
    ensures
        init_refusal(role, signed, who) == Some(RoleRefusal::AlreadyInitialized),
        role.proposing(successor).admin is Some,
        role.without_proposal().admin is Some,
        role.held_by(successor).without_proposal().admin is Some,
{
}

/// The administrator on record can act, with its signature, and nobody else
/// can. Who is refused learns the first of what is missing: an administrator,
/// the signature, the role.
pub proof fn law_the_administrator_can_act(role: AdminRole, signed: Seq<Address>, who: Address)
    ensures
        admin_refusal(role, signed, who) is None <==> role.admin == Some(who) && signed.contains(
            who,
        ),
        role.admin is None ==> admin_refusal(role, signed, who) == Some(
            RoleRefusal::NotInitialized,
        ),
        role.admin is Some && !signed.contains(who) ==> admin_refusal(role, signed, who) == Some(
            RoleRefusal::Unsigned(who),
        ),
        role.admin is Some && signed.contains(who) && role.admin != Some(who) ==> admin_refusal(
            role,
            signed,
            who,
        ) == Some(RoleRefusal::Unauthorized),
{
}

/// Whoever signs can become the first administrator, while there is none.
pub proof fn law_anybody_can_be_the_first(role: AdminRole, signed: Seq<Address>, who: Address)
    ensures
        init_refusal(role, signed, who) is None <==> role.admin is None && signed.contains(who),
        role.admin is Some ==> init_refusal(role, signed, who) == Some(
            RoleRefusal::AlreadyInitialized,
        ),
        role.admin is None && !signed.contains(who) ==> init_refusal(role, signed, who) == Some(
            RoleRefusal::Unsigned(who),
        ),
{
}

/// The administrator can withdraw every proposal, and only where there is one.
pub proof fn law_any_proposal_can_be_withdrawn(role: AdminRole, signed: Seq<Address>, who: Address)
    ensures
        cancel_refusal(role, signed, who) is None <==> role.admin == Some(who) && signed.contains(
            who,
        ) && role.pending is Some,
        role.admin == Some(who) && signed.contains(who) && role.pending is None ==> cancel_refusal(
            role,
            signed,
            who,
        ) == Some(RoleRefusal::NoPendingAdmin),
        !(role.admin == Some(who) && signed.contains(who)) ==> cancel_refusal(role, signed, who)
            == admin_refusal(role, signed, who),
{
}

/// Whoever is proposed can accept, with its signature, and nobody else can.
pub proof fn law_the_proposed_can_accept(role: AdminRole, signed: Seq<Address>, who: Address)
    ensures
        accept_refusal(role, signed, who) is None <==> signed.contains(who) && role.pending == Some(
            who,
        ) && role.admin is Some,
        !signed.contains(who) ==> accept_refusal(role, signed, who) == Some(
            RoleRefusal::Unsigned(who),
        ),
        signed.contains(who) && role.pending is None ==> accept_refusal(role, signed, who) == Some(
            RoleRefusal::NoPendingAdmin,
        ),
        signed.contains(who) && role.pending is Some && role.pending != Some(who)
            ==> accept_refusal(role, signed, who) == Some(RoleRefusal::Unauthorized),
        signed.contains(who) && role.pending == Some(who) && role.admin is None ==> accept_refusal(
            role,
            signed,
            who,
        ) == Some(RoleRefusal::NotInitialized),
{
}

/// Each act on the role changes one part of it and leaves the other.
pub proof fn law_acts_change_one_part(role: AdminRole, who: Address)
    ensures
        AdminRole::vacant().admin is None,
        AdminRole::vacant().pending is None,
        role.held_by(who).admin == Some(who),
        role.held_by(who).pending == role.pending,
        role.proposing(who).admin == role.admin,
        role.proposing(who).pending == Some(who),
        role.without_proposal().admin == role.admin,
        role.without_proposal().pending is None,
{
}

} // verus!
