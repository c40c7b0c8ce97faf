//! # Dividend
//!
//! Pays a yield to the holders of an asset token, in proportion to what they
//! hold. An administrator funds a distribution with a payment token; each
//! holder then claims `total_amount * balance / total balance` once, paid from
//! the escrow that this contract holds.
//!
//! Balances are frozen in a list when a distribution is created. Every share
//! is sized against that list and not against live balances, so that no later
//! transfer can inflate or dilute a claim.
use vstd::prelude::*;

use crate::address::{listed, Address};
use crate::amounts::overflows;
use crate::dividend_laws::{
    law_blank_is_wf, law_claim_keeps_wf, law_claimable_is_not_negative, law_create_keeps_wf,
    law_initialize_keeps_wf, law_role_change_keeps_wf,
};
use crate::index::{id_list, id_views, ids_under, lemma_id_views_insert};
use crate::invocation::{Extension, Invocation, Transfer};
use crate::roles::{
    accept_refusal, admin_refusal, cancel_refusal, init_refusal, AdminRole, RoleRefusal,
};
use crate::seen::{address_code, code_of, is_met, met, nobody_met, note_met};
use crate::table::{Key, Table};

verus! {

/// Behavior version. Changes with the storage layout or with what callers see.
pub const VERSION: u32 = 3;

/// A dividend distribution.
#[derive(Clone, Copy, Debug, PartialEq, Eq, Structural)]
pub struct Distribution {
    pub id: u64,
    pub asset_token: Address,
    pub payment_token: Address,
    pub total_amount: i128,
    /// What was paid out so far.
    pub distributed: i128,
    /// Ledger sequence at which the list of holders was frozen.
    pub snapshot_ledger: u32,
    /// Ledger sequence at creation.
    pub created_at: u32,
    /// Set once everything is paid out.
    pub completed: bool,
}

/// A holder's claim on a distribution.
#[derive(Clone, Copy, Debug, PartialEq, Eq, Structural)]
pub struct ClaimKey {
    pub id: u64,
    pub holder: Address,
}

impl Key for ClaimKey {
    fn same(self, other: Self) -> (r: bool) {
        self == other
    }
}

/// Why a call is refused. Signalled to callers by its code.
#[derive(Clone, Copy, Debug, PartialEq, Eq, Structural)]
pub enum Error {
    AlreadyInitialized,
    NotInitialized,
    Unauthorized,
    DistributionNotFound,
    InvalidAmount,
    NothingToClaim,
    AlreadyClaimed,
    /// The asset token has no supply, so that nobody could ever claim.
    ZeroSupply,
    /// More would be paid out than the distribution holds.
    OverDistributed,
    /// A sum of balances or payouts, or the product of total amount and
    /// balance, is out of range.
    ArithmeticOverflow,
    /// An address occurs twice in the list of holders.
    DuplicateHolder,
    /// There is no admin proposal to accept or to cancel.
    NoPendingAdmin,
}

/// The number that stands for an error in the contract interface.
pub open spec fn error_code(e: Error) -> u32 {
    match e {
        Error::AlreadyInitialized => 1,
        Error::NotInitialized => 2,
        Error::Unauthorized => 3,
        Error::DistributionNotFound => 4,
        Error::InvalidAmount => 5,
        Error::NothingToClaim => 6,
        Error::AlreadyClaimed => 7,
        Error::ZeroSupply => 8,
        Error::OverDistributed => 9,
        Error::ArithmeticOverflow => 10,
        Error::DuplicateHolder => 11,
        Error::NoPendingAdmin => 12,
    }
}

impl Error {
    /// The number that stands for the error in the contract interface.
    pub fn code(self) -> (r: u32)
        ensures
            r == error_code(self),
    {
        match self {
            Error::AlreadyInitialized => 1,
            Error::NotInitialized => 2,
            Error::Unauthorized => 3,
            Error::DistributionNotFound => 4,
            Error::InvalidAmount => 5,
            Error::NothingToClaim => 6,
            Error::AlreadyClaimed => 7,
            Error::ZeroSupply => 8,
            Error::OverDistributed => 9,
            Error::ArithmeticOverflow => 10,
            Error::DuplicateHolder => 11,
            Error::NoPendingAdmin => 12,
        }
    }
}

/// How a call ends without having done anything.
#[derive(Clone, Copy, Debug, PartialEq, Eq, Structural)]
pub enum Abort {
    Error(Error),
    /// The address has not authorized the call.
    Unsigned(Address),
    /// The call needs to be told the total supply of this asset token.
    NeedsSupply(Address),
}

/// A published event.
#[derive(Clone, Copy, Debug, PartialEq, Eq, Structural)]
pub enum Event {
    Init { admin: Address },
    Created { admin: Address, id: u64, total_amount: i128 },
    Claim { holder: Address, id: u64, amount: i128 },
    Proposed { admin: Address, new_admin: Address },
    Cancelled { admin: Address },
    SetAdmin { old_admin: Address, new_admin: Address },
}

/// The persistent storage entries whose lifetime is extended one by one.
#[derive(Clone, Copy, Debug, PartialEq, Eq, Structural)]
pub enum DataKey {
    Dist(u64),
    AssetIds(Address),
    Supply(u64),
    Snapshot(u64),
}

/// A call of the dividend contract.
pub type Call = Invocation<Event, DataKey>;

/// The abort that a refusal by the administrator's role comes to.
pub open spec fn role_abort(e: RoleRefusal) -> Abort {
    match e {
        RoleRefusal::AlreadyInitialized => Abort::Error(Error::AlreadyInitialized),
        RoleRefusal::NotInitialized => Abort::Error(Error::NotInitialized),
        RoleRefusal::Unsigned(who) => Abort::Unsigned(who),
        RoleRefusal::Unauthorized => Abort::Error(Error::Unauthorized),
        RoleRefusal::NoPendingAdmin => Abort::Error(Error::NoPendingAdmin),
    }
}

fn abort_of(e: RoleRefusal) -> (r: Abort)
    ensures
        r == role_abort(e),
{
    match e {
        RoleRefusal::AlreadyInitialized => Abort::Error(Error::AlreadyInitialized),
        RoleRefusal::NotInitialized => Abort::Error(Error::NotInitialized),
        RoleRefusal::Unsigned(who) => Abort::Unsigned(who),
        RoleRefusal::Unauthorized => Abort::Error(Error::Unauthorized),
        RoleRefusal::NoPendingAdmin => Abort::Error(Error::NoPendingAdmin),
    }
}

// ---- the list of holders ----

/// The summed balances of a list of holders.
pub open spec fn total_of(list: Seq<(Address, i128)>) -> int
    decreases list.len(),
{
    if list.len() == 0 {
        0
    } else {
        total_of(list.drop_last()) + list.last().1
    }
}

/// Whether an address is on a list of holders.
pub open spec fn holds(list: Seq<(Address, i128)>, who: Address) -> bool {
    exists|i: int| 0 <= i < list.len() && (#[trigger] list[i]).0 == who
}

/// Why an entry cannot follow those of `before`.
pub open spec fn entry_refusal(before: Seq<(Address, i128)>, entry: (Address, i128)) -> Option<
    Error,
> {
    if entry.1 < 0 {
        Some(Error::InvalidAmount)
    } else if holds(before, entry.0) {
        Some(Error::DuplicateHolder)
    } else if overflows(total_of(before) + entry.1) {
        Some(Error::ArithmeticOverflow)
    } else {
        None
    }
}

/// Why a list of holders is refused: what is wrong with its first bad entry.
pub open spec fn list_refusal(list: Seq<(Address, i128)>) -> Option<Error>
    decreases list.len(),
{
    if list.len() == 0 {
        None
    } else if list_refusal(list.drop_last()) is Some {
        list_refusal(list.drop_last())
    } else {
        entry_refusal(list.drop_last(), list.last())
    }
}

/// The balance of an address on a list of holders: that of its first entry,
/// 0 without one.
pub open spec fn balance_in(list: Seq<(Address, i128)>, who: Address) -> i128
    decreases list.len(),
{
    if list.len() == 0 {
        0
    } else if list[0].0 == who {
        list[0].1
    } else {
        balance_in(list.drop_first(), who)
    }
}

/// A bad entry decides about every list that begins with those up to it.
proof fn lemma_refusal_of_prefix(list: Seq<(Address, i128)>, n: int)
    requires
        0 <= n <= list.len(),
        list_refusal(list.take(n)) is Some,
    ensures
        list_refusal(list) == list_refusal(list.take(n)),
    decreases list.len(),
{
    if n == list.len() {
        assert(list.take(n) =~= list);
    } else {
        let front = list.drop_last();
        assert(front.take(n) =~= list.take(n));
        lemma_refusal_of_prefix(front, n);
    }
}

/// Checks a list of holders: no negative balance, no address twice, and a sum
/// that is in range. Gives the sum, or what is wrong with the first bad entry.
/// A list on the ledger has at most `u32::MAX` entries.
pub fn check_eligible(sdk: &soroban_sdk::Env, eligible: &Vec<(Address, i128)>) -> (r: Result<
    i128,
    Error,
>)
    requires
        eligible@.len() <= u32::MAX,
    ensures
        match r {
            Ok(total) => list_refusal(eligible@) is None && total == total_of(eligible@),
            Err(e) => list_refusal(eligible@) == Some(e),
        },
{
    let mut total: i128 = 0;
    let mut seen = nobody_met(sdk);
    let mut i: usize = 0;
    proof {
        assert(eligible@.take(0).len() == 0);
    }
    while i < eligible.len()
        invariant
            i <= eligible@.len() <= u32::MAX,
            met(seen).finite(),
            met(seen).len() <= i,
            list_refusal(eligible@.take(i as int)) is None,
            total == total_of(eligible@.take(i as int)),
            forall|a: Address|
                #[trigger] holds(eligible@.take(i as int), a) <==> met(seen).contains(code_of(a)),
        decreases eligible@.len() - i,
    {
        let (holder, balance) = eligible[i];
        let ghost before = eligible@.take(i as int);
        let ghost next = eligible@.take(i + 1);
        proof {
            assert(next.drop_last() =~= before);
            assert(next.last() == (holder, balance));
            if list_refusal(next) is Some {
                lemma_refusal_of_prefix(eligible@, i + 1);
            }
            assert(holds(before, holder) <==> met(seen).contains(code_of(holder)));
        }
        if balance < 0 {
            return Err(Error::InvalidAmount);
        }
        let code = address_code(holder);
        if is_met(&seen, code) {
            return Err(Error::DuplicateHolder);
        }
        let ghost met_before = met(seen);
        note_met(&mut seen, code);
        total =
        match total.checked_add(balance) {
            Some(sum) => sum,
            None => return Err(Error::ArithmeticOverflow),
        };
        proof {
            assert forall|a: Address| #[trigger] holds(next, a) <==> met(seen).contains(
                code_of(a),
            ) by {
                assert(holds(before, a) <==> met_before.contains(code_of(a)));
                if holds(before, a) {
                    let k = choose|k: int| 0 <= k < before.len() && (#[trigger] before[k]).0 == a;
                    assert(next[k].0 == a);
                }
                if holds(next, a) && a != holder {
                    let k = choose|k: int| 0 <= k < next.len() && (#[trigger] next[k]).0 == a;
                    assert(before[k].0 == a);
                }
                assert(next[i as int].0 == holder);
            }
        }
        i += 1;
    }
    assert(eligible@.take(i as int) =~= eligible@);
    Ok(total)
}

/// The balance of `who` on a list of holders.
pub fn balance_of(list: &Vec<(Address, i128)>, who: Address) -> (r: i128)
    ensures
        r == balance_in(list@, who),
{
    let mut i: usize = 0;
    assert(list@.skip(0) =~= list@);
    while i < list.len()
        invariant
            i <= list@.len(),
            balance_in(list@, who) == balance_in(list@.skip(i as int), who),
        decreases list@.len() - i,
    {
        let (holder, balance) = list[i];
        proof {
            let rest = list@.skip(i as int);
            assert(rest[0] == list@[i as int]);
            assert(rest.drop_first() =~= list@.skip(i + 1));
        }
        if holder == who {
            return balance;
        }
        i += 1;
    }
    0
}

// ---- state ----

/// The dividend contract's storage.
#[derive(Debug)]
pub struct DividendContract {
    pub role: AdminRole,
    /// The id that was assigned last; 0 before the first.
    pub counter: u64,
    pub dists: Table<u64, Distribution>,
    pub claimed: Table<ClaimKey, bool>,
    /// The distributions of each asset token, oldest first.
    pub asset_ids: Table<Address, Vec<u64>>,
    /// The summed balances of each list of holders.
    pub supply: Table<u64, i128>,
    /// The list of holders of each distribution that is not completed.
    pub snapshot: Table<u64, Vec<(Address, i128)>>,
}

/// A [`DividendContract`] as maps and sequences.
#[verifier::ext_equal]
pub struct DividendView {
    pub role: AdminRole,
    pub counter: u64,
    pub dists: Map<u64, Distribution>,
    pub claimed: Map<ClaimKey, bool>,
    pub asset_ids: Map<Address, Seq<u64>>,
    pub supply: Map<u64, i128>,
    pub snapshot: Map<u64, Seq<(Address, i128)>>,
}

/// Each list of holders of a map by its view.
pub open spec fn list_views(m: Map<u64, Vec<(Address, i128)>>) -> Map<u64, Seq<(Address, i128)>> {
    m.map_values(|v: Vec<(Address, i128)>| v@)
}

impl View for DividendContract {
    type V = DividendView;

    open spec fn view(&self) -> DividendView {
        DividendView {
            role: self.role,
            counter: self.counter,
            dists: self.dists@,
            claimed: self.claimed@,
            asset_ids: id_views(self.asset_ids@),
            supply: self.supply@,
            snapshot: list_views(self.snapshot@),
        }
    }
}

/// Whether a holder has claimed a distribution.
pub open spec fn claimed_by(s: DividendView, id: u64, holder: Address) -> bool {
    let k = ClaimKey { id, holder };
    s.claimed.contains_key(k) && s.claimed[k]
}

/// The summed balances of the list of holders of a distribution; 0 if there is
/// no such list.
pub open spec fn supply_of(s: DividendView, id: u64) -> i128 {
    if s.supply.contains_key(id) {
        s.supply[id]
    } else {
        0
    }
}

/// A quotient with a positive divisor, rounded towards 0.
pub open spec fn truncated(a: int, b: int) -> int {
    if a >= 0 {
        a / b
    } else {
        -((-a) / b)
    }
}

/// What `claimable` comes to: 0 where there is nothing to claim, be it that
/// there is no such distribution, that it is paid out, that the holder has
/// claimed or that the holder is not on the list. Only a product that is out of
/// range is an error.
pub open spec fn claimable_outcome(s: DividendView, id: u64, holder: Address) -> Result<
    i128,
    Error,
> {
    if !s.dists.contains_key(id) || claimed_by(s, id, holder) || supply_of(s, id) <= 0
        || !s.snapshot.contains_key(id) {
        Ok(0)
    } else {
        let basis = balance_in(s.snapshot[id], holder);
        if basis <= 0 {
            Ok(0)
        } else if overflows(s.dists[id].total_amount * basis) {
            Err(Error::ArithmeticOverflow)
        } else {
            Ok(truncated(s.dists[id].total_amount * basis, supply_of(s, id) as int) as i128)
        }
    }
}

/// Why a distribution is refused, with `supply` what the asset token said of
/// its total supply, if it was asked.
pub open spec fn create_refusal(
    s: DividendView,
    signed: Seq<Address>,
    admin: Address,
    asset_token: Address,
    total_amount: i128,
    eligible: Seq<(Address, i128)>,
    supply: Option<i128>,
) -> Option<Abort> {
    if admin_refusal(s.role, signed, admin) is Some {
        Some(role_abort(admin_refusal(s.role, signed, admin)->0))
    } else if total_amount <= 0 {
        Some(Abort::Error(Error::InvalidAmount))
    } else if supply is None {
        Some(Abort::NeedsSupply(asset_token))
    } else if supply->0 <= 0 {
        Some(Abort::Error(Error::ZeroSupply))
    } else if list_refusal(eligible) is Some {
        Some(Abort::Error(list_refusal(eligible)->0))
    } else {
        None
    }
}

/// Why a claim is refused.
pub open spec fn claim_refusal(
    s: DividendView,
    signed: Seq<Address>,
    id: u64,
    holder: Address,
) -> Option<Abort> {
    if !signed.contains(holder) {
        Some(Abort::Unsigned(holder))
    } else if !s.dists.contains_key(id) {
        Some(Abort::Error(Error::DistributionNotFound))
    } else if claimed_by(s, id, holder) {
        Some(Abort::Error(Error::AlreadyClaimed))
    } else {
        match claimable_outcome(s, id, holder) {
            Err(e) => Some(Abort::Error(e)),
            Ok(amount) => if amount <= 0 {
                Some(Abort::Error(Error::NothingToClaim))
            } else if overflows(s.dists[id].distributed + amount) {
                Some(Abort::Error(Error::ArithmeticOverflow))
            } else if s.dists[id].distributed + amount > s.dists[id].total_amount {
                Some(Abort::Error(Error::OverDistributed))
            } else {
                None
            },
        }
    }
}

impl DividendView {
    /// The contract before it is initialized.
    pub open spec fn blank() -> DividendView {
        DividendView {
            role: AdminRole::vacant(),
            counter: 0,
            dists: Map::empty(),
            claimed: Map::empty(),
            asset_ids: Map::empty(),
            supply: Map::empty(),
            snapshot: Map::empty(),
        }
    }

    /// The contract once initialized with `admin`.
    pub open spec fn initialized(self, admin: Address) -> DividendView {
        DividendView { role: self.role.held_by(admin), counter: 0, ..self }
    }

    /// The contract with another role.
    pub open spec fn with_role(self, role: AdminRole) -> DividendView {
        DividendView { role, ..self }
    }

    /// The contract once `dist` is created for the holders of `eligible`.
    pub open spec fn created(
        self,
        dist: Distribution,
        eligible: Seq<(Address, i128)>,
    ) -> DividendView {
        DividendView {
            counter: dist.id,
            dists: self.dists.insert(dist.id, dist),
            asset_ids: self.asset_ids.insert(
                dist.asset_token,
                ids_under(self.asset_ids, dist.asset_token).push(dist.id),
            ),
            supply: self.supply.insert(dist.id, total_of(eligible) as i128),
            snapshot: self.snapshot.insert(dist.id, eligible),
            ..self
        }
    }

    /// The contract once `amount` of the distribution `id` is paid to `holder`.
    /// A distribution that is paid out needs its list of holders no longer.
    pub open spec fn paid(self, id: u64, holder: Address, amount: i128) -> DividendView {
        let distributed = (self.dists[id].distributed + amount) as i128;
        let done = distributed >= self.dists[id].total_amount;
        DividendView {
            dists: self.dists.insert(
                id,
                Distribution {
                    distributed,
                    completed: done || self.dists[id].completed,
                    ..self.dists[id]
                },
            ),
            claimed: self.claimed.insert(ClaimKey { id, holder }, true),
            supply: if done {
                self.supply.remove(id)
            } else {
                self.supply
            },
            snapshot: if done {
                self.snapshot.remove(id)
            } else {
                self.snapshot
            },
            ..self
        }
    }
}

/// A holder's share of an amount: in proportion to its balance, rounded down.
pub open spec fn share(total: int, balance: int, supply: int) -> int {
    total * balance / supply
}

/// The summed shares of those holders on a list who have claimed.
pub open spec fn claimed_shares(
    list: Seq<(Address, i128)>,
    claimed: Map<ClaimKey, bool>,
    id: u64,
    total: int,
    supply: int,
) -> int
    decreases list.len(),
{
    if list.len() == 0 {
        0
    } else {
        let k = ClaimKey { id, holder: list.last().0 };
        claimed_shares(list.drop_last(), claimed, id, total, supply) + if claimed.contains_key(k)
            && claimed[k] {
            share(total, list.last().1 as int, supply)
        } else {
            0
        }
    }
}

/// The ids up to `n` of the distributions of an asset token, oldest first.
pub open spec fn ids_of_asset(dists: Map<u64, Distribution>, n: nat, asset_token: Address) -> Seq<
    u64,
>
    decreases n,
{
    if n == 0 {
        Seq::empty()
    } else {
        let rest = ids_of_asset(dists, (n - 1) as nat, asset_token);
        if dists[n as u64].asset_token == asset_token {
            rest.push(n as u64)
        } else {
            rest
        }
    }
}

impl DividendView {
    /// What holds of every distribution: what was paid out is the sum of the
    /// shares of those who claimed, and the list of holders is kept until all
    /// is paid out.
    pub open spec fn dist_wf(self, id: u64) -> bool {
        let d = self.dists[id];
        &&& d.id == id
        &&& d.snapshot_ledger == d.created_at
        &&& 0 < d.total_amount
        &&& 0 <= d.distributed <= d.total_amount
        &&& d.completed <==> d.distributed == d.total_amount
        &&& self.snapshot.contains_key(id) <==> !d.completed
        &&& self.supply.contains_key(id) <==> !d.completed
        &&& !d.completed ==> {
            let list = self.snapshot[id];
            &&& list_refusal(list) is None
            &&& self.supply[id] == total_of(list)
            &&& d.distributed == claimed_shares(
                list,
                self.claimed,
                id,
                d.total_amount as int,
                total_of(list),
            )
        }
    }

    /// What holds of the contract after every call: the ids are those from 1
    /// to the counter, every distribution is in order, nothing is kept for any
    /// other id, and the index lists what it should.
    pub open spec fn wf(self) -> bool {
        &&& self.role.wf()
        &&& self.role.admin is None ==> self.counter == 0
        &&& forall|id: u64| #[trigger] self.dists.contains_key(id) <==> 1 <= id <= self.counter
        &&& forall|id: u64| 1 <= id <= self.counter ==> #[trigger] self.dist_wf(id)
        &&& forall|id: u64|
            #[trigger] self.snapshot.contains_key(id) ==> self.dists.contains_key(id)
        &&& forall|id: u64|
            #[trigger] self.supply.contains_key(id) ==> self.dists.contains_key(id)
        &&& forall|k: ClaimKey|
            #[trigger] self.claimed.contains_key(k) ==> self.dists.contains_key(k.id)
        &&& forall|a: Address|
            #[trigger] ids_under(self.asset_ids, a) == ids_of_asset(
                self.dists,
                self.counter as nat,
                a,
            )
    }
}

/// The distributions among `ids`, in the order of `ids`.
pub open spec fn dists_of(dists: Map<u64, Distribution>, ids: Seq<u64>) -> Seq<Distribution>
    decreases ids.len(),
{
    if ids.len() == 0 {
        Seq::empty()
    } else {
        let rest = dists_of(dists, ids.drop_last());
        if dists.contains_key(ids.last()) {
            rest.push(dists[ids.last()])
        } else {
            rest
        }
    }
}

/// The lifetime extensions of the distributions among `ids`.
pub open spec fn extensions_of(dists: Map<u64, Distribution>, ids: Seq<u64>) -> Seq<
    Extension<DataKey>,
>
    decreases ids.len(),
{
    if ids.len() == 0 {
        Seq::empty()
    } else {
        let rest = extensions_of(dists, ids.drop_last());
        if dists.contains_key(ids.last()) {
            rest.push(Extension::Entry(DataKey::Dist(ids.last())))
        } else {
            rest
        }
    }
}

/// Filing one more list of holders files its view.
proof fn lemma_list_views_insert(
    m: Map<u64, Vec<(Address, i128)>>,
    id: u64,
    v: Vec<(Address, i128)>,
)
    ensures
        list_views(m.insert(id, v)) == list_views(m).insert(id, v@),
{
    assert(list_views(m.insert(id, v)) =~= list_views(m).insert(id, v@));
}

/// Removing a list of holders removes its view.
proof fn lemma_list_views_remove(m: Map<u64, Vec<(Address, i128)>>, id: u64)
    ensures
        list_views(m.remove(id)) == list_views(m).remove(id),
{
    assert(list_views(m.remove(id)) =~= list_views(m).remove(id));
}

/// A share is in range if the product that it is a fraction of is.
proof fn lemma_share_in_range(product: int, supply: int)
    requires
        !overflows(product),
        supply > 0,
    ensures
        !overflows(truncated(product, supply)),
{
    let p = if product >= 0 {
        product
    } else {
        -product
    };
    assert(0 <= p / supply <= p) by (nonlinear_arith)
        requires
            p >= 0,
            supply > 0,
    ;
}

impl DividendContract {
    /// The contract before it is initialized.
    pub fn new() -> (r: DividendContract)
        ensures
            r@ == DividendView::blank(),
            r@.wf(),
    {
        let r = DividendContract {
            role: AdminRole::new(),
            counter: 0,
            dists: Table::new(),
            claimed: Table::new(),
            asset_ids: Table::new(),
            supply: Table::new(),
            snapshot: Table::new(),
        };
        assert(r@ =~= DividendView::blank());
        proof {
            law_blank_is_wf();
        }
        r
    }

    /// Behavior version.
    pub fn version() -> (r: u32)
        ensures
            r == VERSION,
            r == 3,
    {
        VERSION
    }

    /// Initializes the contract with an admin. Possible once.
    pub fn initialize(&mut self, env: &mut Call, admin: Address) -> (r: Result<(), Abort>)
        ensures
            old(self)@.wf() ==> final(self)@.wf(),
            match r {
                Ok(_) => {
                    &&& init_refusal(old(self)@.role, old(env).authorized@, admin) is None
                    &&& final(self)@ == old(self)@.initialized(admin)
                    &&& final(env).leaves(
                        *old(env),
                        seq![Event::Init { admin }],
                        seq![Extension::Instance],
                    )
                },
                Err(a) => {
                    &&& init_refusal(old(self)@.role, old(env).authorized@, admin) matches Some(e)
                        && a == role_abort(e)
                    &&& final(self)@ == old(self)@
                    &&& *final(env) == *old(env)
                },
            },
    {
        match self.role.initialize(&env.authorized, admin) {
            Err(e) => Err(abort_of(e)),
            Ok(_) => {
                self.counter = 0;
                env.bump();
                env.publish(Event::Init { admin });
                proof {
                    if old(self)@.wf() {
                        law_initialize_keeps_wf(old(self)@, admin);
                    }
                }
                Ok(())
            },
        }
    }

    /// Creates and funds a distribution: `total_amount` of `payment_token` is
    /// paid by the admin into the contract's escrow. Admin only. Returns the
    /// id assigned to it.
    ///
    /// `supply` is the total supply of `asset_token`, which the call asks for
    /// once it needs it; a token without supply is refused.
    ///
    /// `eligible` is taken as it is: nothing checks its balances against the
    /// asset token. It must have no negative balance and no address twice.
    pub fn create_distribution(
        &mut self,
        sdk: &soroban_sdk::Env,
        env: &mut Call,
        admin: Address,
        asset_token: Address,
        payment_token: Address,
        total_amount: i128,
        eligible: Vec<(Address, i128)>,
        supply: Option<i128>,
    ) -> (r: Result<u64, Abort>)
        requires
            eligible@.len() <= u32::MAX,
            create_refusal(
                old(self)@,
                old(env).authorized@,
                admin,
                asset_token,
                total_amount,
                eligible@,
                supply,
            ) is None ==> old(self)@.counter < u64::MAX,
        ensures
            old(self)@.wf() ==> final(self)@.wf(),
            ({
                let refusal = create_refusal(
                    old(self)@,
                    old(env).authorized@,
                    admin,
                    asset_token,
                    total_amount,
                    eligible@,
                    supply,
                );
                match r {
                    Ok(id) => {
                        &&& refusal is None
                        &&& id == old(self)@.counter + 1
                        &&& final(self)@ == old(self)@.created(
                            (Distribution {
                                id,
                                asset_token,
                                payment_token,
                                total_amount,
                                distributed: 0,
                                snapshot_ledger: old(env).sequence,
                                created_at: old(env).sequence,
                                completed: false,
                            }),
                            eligible@,
                        )
                        &&& final(env).pays(
                            *old(env),
                            (Transfer {
                                token: payment_token,
                                from: admin,
                                to: old(env).contract,
                                amount: total_amount,
                            }),
                            seq![Event::Created { admin, id, total_amount }],
                            seq![
                                Extension::Entry(DataKey::Snapshot(id)),
                                Extension::Entry(DataKey::Supply(id)),
                                Extension::Entry(DataKey::Dist(id)),
                                Extension::Entry(DataKey::AssetIds(asset_token)),
                                Extension::Instance,
                            ],
                        )
                    },
                    Err(a) => {
                        &&& refusal == Some(a)
                        &&& final(self)@ == old(self)@
                        &&& *final(env) == *old(env)
                    },
                }
            }),
    {
        match self.role.check_admin(&env.authorized, admin) {
            Err(e) => return Err(abort_of(e)),
            Ok(_) => {},
        }
        if total_amount <= 0 {
            return Err(Abort::Error(Error::InvalidAmount));
        }
        match supply {
            None => return Err(Abort::NeedsSupply(asset_token)),
            Some(supply) => if supply <= 0 {
                return Err(Abort::Error(Error::ZeroSupply));
            },
        }
        // The list is checked before any funds move.
        let snapshot_supply = match check_eligible(sdk, &eligible) {
            Err(e) => return Err(Abort::Error(e)),
            Ok(total) => total,
        };
        let ghost before = self@;
        let ghost list = eligible@;
        env.pay(
            Transfer { token: payment_token, from: admin, to: env.contract, amount: total_amount },
        );
        let id: u64 = self.counter + 1;
        let dist = Distribution {
            id,
            asset_token,
            payment_token,
            total_amount,
            distributed: 0,
            snapshot_ledger: env.sequence,
            created_at: env.sequence,
            completed: false,
        };
        let mut asset_ids = id_list(&self.asset_ids, asset_token);
        asset_ids.push(id);
        proof {
            lemma_list_views_insert(self.snapshot@, id, eligible);
            lemma_id_views_insert(self.asset_ids@, asset_token, asset_ids);
        }
        self.snapshot.set(id, eligible);
        env.extend(DataKey::Snapshot(id));
        self.supply.set(id, snapshot_supply);
        env.extend(DataKey::Supply(id));
        self.dists.set(id, dist);
        env.extend(DataKey::Dist(id));
        self.asset_ids.set(asset_token, asset_ids);
        env.extend(DataKey::AssetIds(asset_token));
        self.counter = id;
        env.bump();
        env.publish(Event::Created { admin, id, total_amount });
        proof {
            assert(env.events@ =~= old(env).events@ + seq![
                Event::Created { admin, id, total_amount },
            ]);
            assert(env.extended@ =~= old(env).extended@ + seq![
                Extension::Entry(DataKey::Snapshot(id)),
                Extension::Entry(DataKey::Supply(id)),
                Extension::Entry(DataKey::Dist(id)),
                Extension::Entry(DataKey::AssetIds(asset_token)),
                Extension::Instance,
            ]);
            assert(self@ =~= before.created(dist, list));
            if before.wf() {
                law_create_keeps_wf(before, dist, list);
            }
        }
        Ok(id)
    }

    /// What a holder can still claim from a distribution: 0 if it has claimed
    /// already or held nothing, if the distribution is paid out, or if there is
    /// no such distribution.
    pub fn claimable(&self, env: &mut Call, distribution_id: u64, holder: Address) -> (r: Result<
        i128,
        Abort,
    >)
        ensures
            match claimable_outcome(self@, distribution_id, holder) {
                Ok(amount) => {
                    &&& r == Ok::<i128, Abort>(amount)
                    &&& if self@.dists.contains_key(distribution_id) {
                        final(env).leaves(
                            *old(env),
                            seq![],
                            seq![Extension::Entry(DataKey::Dist(distribution_id))],
                        )
                    } else {
                        *final(env) == *old(env)
                    }
                },
                Err(e) => {
                    &&& r == Err::<i128, Abort>(Abort::Error(e))
                    &&& *final(env) == *old(env)
                },
            },
            self@.wf() ==> match r {
                Ok(amount) => amount >= 0,
                Err(a) => a == Abort::Error(Error::ArithmeticOverflow),
            },
    {
        proof {
            if self@.wf() {
                law_claimable_is_not_negative(self@, distribution_id, holder);
            }
        }
        match self.entitlement(distribution_id, holder) {
            Ok(amount) => {
                if self.dists.has(distribution_id) {
                    env.extend(DataKey::Dist(distribution_id));
                }
                Ok(amount)
            },
            Err(e) => Err(Abort::Error(e)),
        }
    }

    /// What a holder can still claim from a distribution: its share of the
    /// total amount, rounded down.
    fn entitlement(&self, distribution_id: u64, holder: Address) -> (r: Result<i128, Error>)
        ensures
            r == claimable_outcome(self@, distribution_id, holder),
    {
        let dist = match self.dists.get(distribution_id) {
            None => return Ok(0),
            Some(dist) => *dist,
        };
        if self.has_claimed(distribution_id, holder) {
            return Ok(0);
        }
        let supply = self.load_supply(distribution_id);
        if supply <= 0 {
            return Ok(0);
        }
        let basis = match self.snapshot_balance(distribution_id, holder) {
            None => return Ok(0),
            Some(basis) => basis,
        };
        if basis <= 0 {
            return Ok(0);
        }
        let product = match dist.total_amount.checked_mul(basis) {
            None => return Err(Error::ArithmeticOverflow),
            Some(product) => product,
        };
        proof {
            lemma_share_in_range(product as int, supply as int);
        }
        Ok(product / supply)
    }

    /// Claims a holder's share, which is paid from escrow. The holder must
    /// authorize the call.
    pub fn claim(&mut self, env: &mut Call, distribution_id: u64, holder: Address) -> (r: Result<
        (),
        Abort,
    >)
        ensures
            old(self)@.wf() ==> final(self)@.wf(),
            match r {
                Ok(_) => {
                    let amount = claimable_outcome(old(self)@, distribution_id, holder)->Ok_0;
                    &&& claim_refusal(
                        old(self)@,
                        old(env).authorized@,
                        distribution_id,
                        holder,
                    ) is None
                    &&& final(self)@ == old(self)@.paid(distribution_id, holder, amount)
                    &&& final(env).pays(
                        *old(env),
                        (Transfer {
                            token: old(self)@.dists[distribution_id].payment_token,
                            from: old(env).contract,
                            to: holder,
                            amount,
                        }),
                        seq![Event::Claim { holder, id: distribution_id, amount }],
                        seq![
                            Extension::Entry(DataKey::Dist(distribution_id)),
                            Extension::Entry(DataKey::Dist(distribution_id)),
                            Extension::Entry(DataKey::Dist(distribution_id)),
                            Extension::Instance,
                        ],
                    )
                },
                Err(a) => {
                    &&& claim_refusal(old(self)@, old(env).authorized@, distribution_id, holder)
                        == Some(a)
                    &&& final(self)@ == old(self)@
                    &&& *final(env) == *old(env)
                },
            },
    {
        if !listed(&env.authorized, holder) {
            return Err(Abort::Unsigned(holder));
        }
        let mut dist = match self.dists.get(distribution_id) {
            None => return Err(Abort::Error(Error::DistributionNotFound)),
            Some(dist) => *dist,
        };
        if self.has_claimed(distribution_id, holder) {
            return Err(Abort::Error(Error::AlreadyClaimed));
        }
        let amount = match self.entitlement(distribution_id, holder) {
            Err(e) => return Err(Abort::Error(e)),
            Ok(amount) => amount,
        };
        if amount <= 0 {
            return Err(Abort::Error(Error::NothingToClaim));
        }
        let distributed = match dist.distributed.checked_add(amount) {
            None => return Err(Abort::Error(Error::ArithmeticOverflow)),
            Some(distributed) => distributed,
        };
        if distributed > dist.total_amount {
            return Err(Abort::Error(Error::OverDistributed));
        }
        let ghost before = self@;
        env.extend(DataKey::Dist(distribution_id));
        env.extend(DataKey::Dist(distribution_id));
        self.claimed.set(ClaimKey { id: distribution_id, holder }, true);
        env.pay(
            Transfer { token: dist.payment_token, from: env.contract, to: holder, amount },
        );
        dist.distributed = distributed;
        if dist.distributed >= dist.total_amount {
            dist.completed = true;
            proof {
                lemma_list_views_remove(self.snapshot@, distribution_id);
            }
            self.snapshot.remove(distribution_id);
            self.supply.remove(distribution_id);
        }
        self.dists.set(distribution_id, dist);
        env.extend(DataKey::Dist(distribution_id));
        env.bump();
        env.publish(Event::Claim { holder, id: distribution_id, amount });
        proof {
            assert(env.events@ =~= old(env).events@ + seq![
                Event::Claim { holder, id: distribution_id, amount },
            ]);
            assert(env.extended@ =~= old(env).extended@ + seq![
                Extension::Entry(DataKey::Dist(distribution_id)),
                Extension::Entry(DataKey::Dist(distribution_id)),
                Extension::Entry(DataKey::Dist(distribution_id)),
                Extension::Instance,
            ]);
            assert(self@ =~= before.paid(distribution_id, holder, amount));
            if before.wf() {
                law_claim_keeps_wf(before, old(env).authorized@, distribution_id, holder);
            }
        }
        Ok(())
    }

    /// The distribution with the given id.
    pub fn get_distribution(&self, env: &mut Call, distribution_id: u64) -> (r: Result<
        Distribution,
        Abort,
    >)
        ensures
            match r {
                Ok(dist) => {
                    &&& self@.dists.contains_key(distribution_id)
                    &&& dist == self@.dists[distribution_id]
                    &&& final(env).leaves(
                        *old(env),
                        seq![],
                        seq![Extension::Entry(DataKey::Dist(distribution_id))],
                    )
                },
                Err(a) => {
                    &&& !self@.dists.contains_key(distribution_id)
                    &&& a == Abort::Error(Error::DistributionNotFound)
                    &&& *final(env) == *old(env)
                },
            },
    {
        self.load(env, distribution_id)
    }

    /// All distributions of an asset token, oldest first.
    pub fn get_distributions_for_asset(&self, env: &mut Call, asset_token: Address) -> (r: Vec<
        Distribution,
    >)
        ensures
            r@ == dists_of(self@.dists, ids_under(self@.asset_ids, asset_token)),
            final(env).leaves(
                *old(env),
                seq![],
                extensions_of(self@.dists, ids_under(self@.asset_ids, asset_token)),
            ),
    {
        let ids = id_list(&self.asset_ids, asset_token);
        let mut out: Vec<Distribution> = Vec::new();
        let mut i: usize = 0;
        assert(out@ =~= dists_of(self@.dists, ids@.take(0)));
        assert(env.extended@ =~= old(env).extended@ + extensions_of(self@.dists, ids@.take(0)));
        assert(env.events@ =~= old(env).events@ + Seq::<Event>::empty());
        while i < ids.len()
            invariant
                i <= ids@.len(),
                out@ == dists_of(self@.dists, ids@.take(i as int)),
                env.leaves(*old(env), seq![], extensions_of(self@.dists, ids@.take(i as int))),
            decreases ids@.len() - i,
        {
            if let Some(dist) = self.dists.get(ids[i]) {
                env.extend(DataKey::Dist(ids[i]));
                out.push(*dist);
            }
            proof {
                let next = ids@.take(i + 1);
                assert(next.drop_last() =~= ids@.take(i as int));
                assert(next.last() == ids@[i as int]);
                assert(env.events@ =~= old(env).events@ + Seq::<Event>::empty());
                assert(env.extended@ =~= old(env).extended@ + extensions_of(self@.dists, next));
            }
            i += 1;
        }
        assert(ids@.take(i as int) =~= ids@);
        out
    }

    /// Whether a holder has claimed a distribution.
    pub fn has_claimed(&self, distribution_id: u64, holder: Address) -> (r: bool)
        ensures
            r == claimed_by(self@, distribution_id, holder),
    {
        match self.claimed.get(ClaimKey { id: distribution_id, holder }) {
            Some(claimed) => *claimed,
            None => false,
        }
    }

    /// The summed balances of the list of holders of a distribution.
    fn load_supply(&self, distribution_id: u64) -> (r: i128)
        ensures
            r == supply_of(self@, distribution_id),
    {
        match self.supply.get(distribution_id) {
            Some(supply) => *supply,
            None => 0,
        }
    }

    /// The balance by which a holder's share is sized; `None` if there is no
    /// list of holders. An address that is not on the list has 0.
    fn snapshot_balance(&self, distribution_id: u64, holder: Address) -> (r: Option<i128>)
        ensures
            r == if self@.snapshot.contains_key(distribution_id) {
                Some(balance_in(self@.snapshot[distribution_id], holder))
            } else {
                None::<i128>
            },
    {
        match self.snapshot.get(distribution_id) {
            Some(list) => Some(balance_of(list, holder)),
            None => None,
        }
    }

    /// The distribution with the given id, its lifetime extended.
    fn load(&self, env: &mut Call, id: u64) -> (r: Result<Distribution, Abort>)
        ensures
            match r {
                Ok(dist) => {
                    &&& self@.dists.contains_key(id)
                    &&& dist == self@.dists[id]
                    &&& final(env).leaves(
                        *old(env),
                        seq![],
                        seq![Extension::Entry(DataKey::Dist(id))],
                    )
                },
                Err(a) => {
                    &&& !self@.dists.contains_key(id)
                    &&& a == Abort::Error(Error::DistributionNotFound)
                    &&& *final(env) == *old(env)
                },
            },
    {
        match self.dists.get(id) {
            Some(dist) => {
                env.extend(DataKey::Dist(id));
                Ok(*dist)
            },
            None => Err(Abort::Error(Error::DistributionNotFound)),
        }
    }

    /// The admin.
    pub fn get_admin(&self) -> (r: Result<Address, Abort>)
        ensures
            match r {
                Ok(admin) => self@.role.admin == Some(admin),
                Err(a) => self@.role.admin is None && a == Abort::Error(Error::NotInitialized),
            },
    {
        match self.role.admin {
            Some(admin) => Ok(admin),
            None => Err(Abort::Error(Error::NotInitialized)),
        }
    }

    /// Proposes a new admin. The role moves only once the successor accepts.
    pub fn propose_admin(&mut self, env: &mut Call, admin: Address, new_admin: Address) -> (r: Result<
        (),
        Abort,
    >)
        ensures
            old(self)@.wf() ==> final(self)@.wf(),
            match r {
                Ok(_) => {
                    &&& admin_refusal(old(self)@.role, old(env).authorized@, admin) is None
                    &&& final(self)@ == old(self)@.with_role(old(self)@.role.proposing(new_admin))
                    &&& final(env).leaves(
                        *old(env),
                        seq![Event::Proposed { admin, new_admin }],
                        seq![Extension::Instance],
                    )
                },
                Err(a) => {
                    &&& admin_refusal(old(self)@.role, old(env).authorized@, admin) matches Some(e)
                        && a == role_abort(e)
                    &&& final(self)@ == old(self)@
                    &&& *final(env) == *old(env)
                },
            },
    {
        match self.role.propose(&env.authorized, admin, new_admin) {
            Err(e) => Err(abort_of(e)),
            Ok(_) => {
                env.bump();
                env.publish(Event::Proposed { admin, new_admin });
                proof {
                    if old(self)@.wf() {
                        law_role_change_keeps_wf(old(self)@, self.role);
                    }
                }
                Ok(())
            },
        }
    }

    /// Withdraws the pending admin proposal. Admin only.
    pub fn cancel_admin_proposal(&mut self, env: &mut Call, admin: Address) -> (r: Result<
        (),
        Abort,
    >)
        ensures
            old(self)@.wf() ==> final(self)@.wf(),
            match r {
                Ok(_) => {
                    &&& cancel_refusal(old(self)@.role, old(env).authorized@, admin) is None
                    &&& final(self)@ == old(self)@.with_role(old(self)@.role.without_proposal())
                    &&& final(env).leaves(
                        *old(env),
                        seq![Event::Cancelled { admin }],
                        seq![Extension::Instance],
                    )
                },
                Err(a) => {
                    &&& cancel_refusal(old(self)@.role, old(env).authorized@, admin) matches Some(e)
                        && a == role_abort(e)
                    &&& final(self)@ == old(self)@
                    &&& *final(env) == *old(env)
                },
            },
    {
        match self.role.cancel(&env.authorized, admin) {
            Err(e) => Err(abort_of(e)),
            Ok(_) => {
                env.bump();
                env.publish(Event::Cancelled { admin });
                proof {
                    if old(self)@.wf() {
                        law_role_change_keeps_wf(old(self)@, self.role);
                    }
                }
                Ok(())
            },
        }
    }

    /// Accepts the pending admin proposal, which completes the handover. Only
    /// the proposed successor can.
    pub fn accept_admin(&mut self, env: &mut Call, new_admin: Address) -> (r: Result<(), Abort>)
        ensures
            old(self)@.wf() ==> final(self)@.wf(),
            match r {
                Ok(_) => {
                    &&& accept_refusal(old(self)@.role, old(env).authorized@, new_admin) is None
                    &&& final(self)@ == old(self)@.with_role(
                        old(self)@.role.held_by(new_admin).without_proposal(),
                    )
                    &&& final(env).leaves(
                        *old(env),
                        seq![Event::SetAdmin { old_admin: old(self)@.role.admin->0, new_admin }],
                        seq![Extension::Instance],
                    )
                },
                Err(a) => {
                    &&& accept_refusal(
                        old(self)@.role,
                        old(env).authorized@,
                        new_admin,
                    ) matches Some(e) && a == role_abort(e)
                    &&& final(self)@ == old(self)@
                    &&& *final(env) == *old(env)
                },
            },
    {
        match self.role.accept(&env.authorized, new_admin) {
            Err(e) => Err(abort_of(e)),
            Ok(old_admin) => {
                env.bump();
                env.publish(Event::SetAdmin { old_admin, new_admin });
                proof {
                    if old(self)@.wf() {
                        law_role_change_keeps_wf(old(self)@, self.role);
                    }
                }
                Ok(())
            },
        }
    }

    /// The address proposed as the next admin, if any.
    pub fn get_pending_admin(&self) -> (r: Option<Address>)
        ensures
            r == self@.role.pending,
    {
        self.role.pending
    }
}

} // verus!
