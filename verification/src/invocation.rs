//! What a contract call learns from the ledger and leaves behind there.
use vstd::prelude::*;

use crate::address::Address;

verus! {

/// Ledgers in a day, at about five seconds each.
pub const DAY_IN_LEDGERS: u32 = 17_280;

/// The lifetime, in ledgers, that an extended storage entry has left.
pub const INSTANCE_BUMP_AMOUNT: u32 = 30 * DAY_IN_LEDGERS;

/// A storage entry is extended only once it has fewer ledgers left than this.
pub const INSTANCE_LIFETIME_THRESHOLD: u32 = INSTANCE_BUMP_AMOUNT - DAY_IN_LEDGERS;

/// A storage entry whose lifetime a call extends.
#[derive(Debug, PartialEq, Eq)]
pub enum Extension<K> {
    /// The contract instance, with everything that is stored in it.
    Instance,
    /// The persistent entry under a key.
    Entry(K),
}

/// A payment that a call makes in a token.
#[derive(Clone, Copy, Debug, PartialEq, Eq, Structural)]
pub struct Transfer {
    pub token: Address,
    pub from: Address,
    pub to: Address,
    pub amount: i128,
}

/// One contract call: what it is told and what it hands back.
///
/// `E` is the contract's event type and `K` its storage key type.
#[derive(Debug)]
pub struct Invocation<E, K> {
    /// The address of the contract that runs.
    pub contract: Address,
    /// The current ledger sequence number.
    pub sequence: u32,
    /// The addresses that have authorized the call.
    pub authorized: Vec<Address>,
    /// The payments to make, oldest first. If one fails, the call fails.
    pub transfers: Vec<Transfer>,
    /// The events to publish, oldest first.
    pub events: Vec<E>,
    /// The lifetimes to extend, oldest first.
    pub extended: Vec<Extension<K>>,
}

impl<E, K> Invocation<E, K> {
    /// Whether `self` is `before` with `events` published and the lifetimes of
    /// `extended` extended, and nothing else changed.
    pub open spec fn leaves(
        self,
        before: Self,
        events: Seq<E>,
        extended: Seq<Extension<K>>,
    ) -> bool {
        &&& self.contract == before.contract
        &&& self.sequence == before.sequence
        &&& self.authorized == before.authorized
        &&& self.transfers == before.transfers
        &&& self.events@ == before.events@ + events
        &&& self.extended@ == before.extended@ + extended
    }

    /// Whether `self` is `before` with `transfer` made, `events` published and
    /// the lifetimes of `extended` extended, and nothing else changed.
    pub open spec fn pays(
        self,
        before: Self,
        transfer: Transfer,
        events: Seq<E>,
        extended: Seq<Extension<K>>,
    ) -> bool {
        &&& self.contract == before.contract
        &&& self.sequence == before.sequence
        &&& self.authorized == before.authorized
        &&& self.transfers@ == before.transfers@.push(transfer)
        &&& self.events@ == before.events@ + events
        &&& self.extended@ == before.extended@ + extended
    }

    /// A call of `contract` at ledger `sequence`, with no authorization yet.
    pub fn new(contract: Address, sequence: u32) -> (r: Self)
        ensures
            r.contract == contract,
            r.sequence == sequence,
            r.authorized@.len() == 0,
            r.transfers@.len() == 0,
            r.events@.len() == 0,
            r.extended@.len() == 0,
    {
        Invocation {
            contract,
            sequence,
            authorized: Vec::new(),
            transfers: Vec::new(),
            events: Vec::new(),
            extended: Vec::new(),
        }
    }

    /// Records that `who` has authorized the call.
    pub fn authorize(&mut self, who: Address)
        ensures
            final(self).authorized@ == old(self).authorized@.push(who),
            final(self).contract == old(self).contract,
            final(self).sequence == old(self).sequence,
            final(self).transfers == old(self).transfers,
            final(self).events == old(self).events,
            final(self).extended == old(self).extended,
    {
        self.authorized.push(who);
    }

    /// Makes one payment.
    pub fn pay(&mut self, transfer: Transfer)
        ensures
            final(self).pays(*old(self), transfer, seq![], seq![]),
    {
        self.transfers.push(transfer);
        assert(self.events@ =~= old(self).events@ + seq![]);
        assert(self.extended@ =~= old(self).extended@ + seq![]);
    }

    /// Publishes one event.
    pub fn publish(&mut self, event: E)
        ensures
            final(self).leaves(*old(self), seq![event], seq![]),
    {
        self.events.push(event);
        assert(self.events@ =~= old(self).events@ + seq![event]);
        assert(self.extended@ =~= old(self).extended@ + seq![]);
    }

    /// Extends the lifetime of the persistent entry under `key`.
    pub fn extend(&mut self, key: K)
        ensures
            final(self).leaves(*old(self), seq![], seq![Extension::Entry(key)]),
    {
        self.extended.push(Extension::Entry(key));
        assert(self.events@ =~= old(self).events@ + seq![]);
        assert(self.extended@ =~= old(self).extended@ + seq![Extension::Entry(key)]);
    }

    /// Extends the lifetime of the contract instance.
    pub fn bump(&mut self)
        ensures
            final(self).leaves(*old(self), seq![], seq![Extension::Instance]),
    {
        self.extended.push(Extension::Instance);
        assert(self.events@ =~= old(self).events@ + seq![]);
        assert(self.extended@ =~= old(self).extended@ + seq![Extension::Instance]);
    }
}

/// What a call leaves behind comes after what was there, in order and whole;
/// what it was told does not change, and only a payment adds a payment.
pub proof fn law_a_call_only_adds<E, K>(
    after: Invocation<E, K>,
    before: Invocation<E, K>,
    transfer: Transfer,
    events: Seq<E>,
    extended: Seq<Extension<K>>,
)
    requires
        after.leaves(before, events, extended) || after.pays(before, transfer, events, extended),
    ensures
        after.contract == before.contract,
        after.sequence == before.sequence,
        after.authorized@ == before.authorized@,
        after.events@.len() == before.events@.len() + events.len(),
        after.events@.take(before.events@.len() as int) == before.events@,
        after.events@.skip(before.events@.len() as int) == events,
        after.extended@.len() == before.extended@.len() + extended.len(),
        after.extended@.take(before.extended@.len() as int) == before.extended@,
        after.extended@.skip(before.extended@.len() as int) == extended,
        after.leaves(before, events, extended) ==> after.transfers@ == before.transfers@,
        after.pays(before, transfer, events, extended) ==> after.transfers@.len()
            == before.transfers@.len() + 1 && after.transfers@.last() == transfer
            && after.transfers@.drop_last() == before.transfers@,
{
    assert(after.events@.take(before.events@.len() as int) =~= before.events@);
    assert(after.events@.skip(before.events@.len() as int) =~= events);
    assert(after.extended@.take(before.extended@.len() as int) =~= before.extended@);
    assert(after.extended@.skip(before.extended@.len() as int) =~= extended);
    if after.pays(before, transfer, events, extended) {
        assert(after.transfers@.drop_last() =~= before.transfers@);
    }
}

} // verus!
