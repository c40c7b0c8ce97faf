//! # Asset token
//!
//! A token that stands for a real-world asset. Every movement is subject to a
//! compliance contract: both parties of a transfer must be allowed before any
//! balance changes, and so must the recipient of a mint. Only approved
//! addresses can ever receive the asset.
//!
//! The valuation is in USD cents. Amounts are token units in the token's own
//! decimals.
//!
//! The answers of the compliance contract come from outside. A call that has a
//! question for it and finds no answer in `answers` ends with
//! [`Abort::NeedsApproval`]; it is made again with the answer added at the end.
//! The administrator of that contract has nothing to do with the administrator
//! of the token.
use vstd::prelude::*;

use crate::address::{listed, Address};
use crate::amounts::overflows;
use crate::asset_token_laws::{
    law_batch_adds_up, law_blank_is_wf, law_burn_takes, law_initialize_keeps_wf,
    law_metadata_change_keeps_wf, law_mint_adds, law_transfer_conserves,
};
use crate::invocation::{Extension, Invocation};
use crate::roles::{accept_refusal, admin_refusal, cancel_refusal, AdminRole, RoleRefusal};
use crate::table::Table;

verus! {

/// Behavior version. Changes with the storage layout or with what callers see.
pub const VERSION: u32 = 1;

/// The most bytes of a name.
pub const MAX_NAME_LEN: usize = 64;

/// The most bytes of a symbol.
pub const MAX_SYMBOL_LEN: usize = 16;

/// The most bytes of an asset type.
pub const MAX_ASSET_TYPE_LEN: usize = 32;

/// The most bytes of a description.
pub const MAX_DESC_LEN: usize = 256;

/// What describes the tokenized asset.
#[derive(Debug, PartialEq, Eq)]
pub struct AssetMetadata {
    pub name: Vec<u8>,
    pub symbol: Vec<u8>,
    /// As in "real_estate", "invoice" or "commodity".
    pub asset_type: Vec<u8>,
    pub total_supply: i128,
    pub decimals: u32,
    pub admin: Address,
    pub compliance_contract: Address,
    pub asset_description: Vec<u8>,
    /// In USD cents.
    pub valuation: i128,
    pub paused: bool,
    /// Who may pause the token besides the admin, and nothing else. Absent by
    /// default.
    pub guardian: Option<Address>,
    /// Who is proposed as the next admin.
    pub pending_admin: Option<Address>,
}

/// An [`AssetMetadata`] with its texts as byte sequences.
#[verifier::ext_equal]
pub struct AssetMetadataView {
    pub name: Seq<u8>,
    pub symbol: Seq<u8>,
    pub asset_type: Seq<u8>,
    pub total_supply: i128,
    pub decimals: u32,
    pub admin: Address,
    pub compliance_contract: Address,
    pub asset_description: Seq<u8>,
    pub valuation: i128,
    pub paused: bool,
    pub guardian: Option<Address>,
    pub pending_admin: Option<Address>,
}

impl View for AssetMetadata {
    type V = AssetMetadataView;

    open spec fn view(&self) -> AssetMetadataView {
        AssetMetadataView {
            name: self.name@,
            symbol: self.symbol@,
            asset_type: self.asset_type@,
            total_supply: self.total_supply,
            decimals: self.decimals,
            admin: self.admin,
            compliance_contract: self.compliance_contract,
            asset_description: self.asset_description@,
            valuation: self.valuation,
            paused: self.paused,
            guardian: self.guardian,
            pending_admin: self.pending_admin,
        }
    }
}

impl AssetMetadata {
    /// A copy of the metadata.
    pub fn copy(&self) -> (r: AssetMetadata)
        ensures
            r@ == self@,
    {
        let r = AssetMetadata {
            name: self.name.clone(),
            symbol: self.symbol.clone(),
            asset_type: self.asset_type.clone(),
            total_supply: self.total_supply,
            decimals: self.decimals,
            admin: self.admin,
            compliance_contract: self.compliance_contract,
            asset_description: self.asset_description.clone(),
            valuation: self.valuation,
            paused: self.paused,
            guardian: self.guardian,
            pending_admin: self.pending_admin,
        };
        assert(r@ =~= self@);
        r
    }
}

/// Why a call is refused. Signalled to callers by its code.
#[derive(Clone, Copy, Debug, PartialEq, Eq, Structural)]
pub enum Error {
    AlreadyInitialized,
    NotInitialized,
    Unauthorized,
    InsufficientBalance,
    InvalidAmount,
    Paused,
    SenderNotCompliant,
    RecipientNotCompliant,
    Overflow,
    InvalidInput,
    /// The new compliance contract does not approve the admin.
    InvalidCompliance,
    /// There is no admin proposal to accept or to cancel.
    NoPendingAdmin,
}

/// The number that stands for an error in the contract interface.
pub open spec fn error_code(e: Error) -> u32 {
    match e {
        Error::AlreadyInitialized => 1,
        Error::NotInitialized => 2,
        Error::Unauthorized => 3,
        Error::InsufficientBalance => 4,
        Error::InvalidAmount => 5,
        Error::Paused => 6,
        Error::SenderNotCompliant => 7,
        Error::RecipientNotCompliant => 8,
        Error::Overflow => 9,
        Error::InvalidInput => 10,
        Error::InvalidCompliance => 11,
        Error::NoPendingAdmin => 12,
    }
}

impl Error {
    /// The number that stands for the error in the contract interface.
    pub fn code(self) -> (r: u32)
        ensures
            r == error_code(self),
    {
        match self {
            Error::AlreadyInitialized => 1,
            Error::NotInitialized => 2,
            Error::Unauthorized => 3,
            Error::InsufficientBalance => 4,
            Error::InvalidAmount => 5,
            Error::Paused => 6,
            Error::SenderNotCompliant => 7,
            Error::RecipientNotCompliant => 8,
            Error::Overflow => 9,
            Error::InvalidInput => 10,
            Error::InvalidCompliance => 11,
            Error::NoPendingAdmin => 12,
        }
    }
}

/// How a call ends without having done anything.
#[derive(Clone, Copy, Debug, PartialEq, Eq, Structural)]
pub enum Abort {
    Error(Error),
    /// The address has not authorized the call.
    Unsigned(Address),
    /// The call needs to be told whether this compliance contract allows this
    /// address.
    NeedsApproval { compliance: Address, who: Address },
}

/// A published event.
#[derive(Clone, Copy, Debug, PartialEq, Eq)]
pub enum Event {
    Genesis { admin: Address, total_supply: i128 },
    Mint { to: Address, amount: i128 },
    /// With the balances after the transfer.
    Transfer {
        from: Address,
        to: Address,
        amount: i128,
        from_balance: i128,
        to_balance: i128,
    },
    Burn { from: Address, amount: i128 },
    Pause { caller: Address },
    Unpause { admin: Address },
    Guardian { guardian: Option<Address> },
    Valuation { valuation: i128 },
    SetComp { compliance: Address },
    Proposed { admin: Address, new_admin: Address },
    Cancelled { admin: Address },
    SetAdmin { old_admin: Address, new_admin: Address },
}

/// The persistent storage entries whose lifetime is extended one by one.
#[derive(Clone, Copy, Debug, PartialEq, Eq, Structural)]
pub enum DataKey {
    Balance(Address),
}

/// A call of the asset token.
pub type Call = Invocation<Event, DataKey>;

/// The abort that a refusal by the administrator's role comes to.
pub open spec fn role_abort(e: RoleRefusal) -> Abort {
    match e {
        RoleRefusal::AlreadyInitialized => Abort::Error(Error::AlreadyInitialized),
        RoleRefusal::NotInitialized => Abort::Error(Error::NotInitialized),
        RoleRefusal::Unsigned(who) => Abort::Unsigned(who),
        RoleRefusal::Unauthorized => Abort::Error(Error::Unauthorized),
        RoleRefusal::NoPendingAdmin => Abort::Error(Error::NoPendingAdmin),
    }
}

fn abort_of(e: RoleRefusal) -> (r: Abort)
    ensures
        r == role_abort(e),
{
    match e {
        RoleRefusal::AlreadyInitialized => Abort::Error(Error::AlreadyInitialized),
        RoleRefusal::NotInitialized => Abort::Error(Error::NotInitialized),
        RoleRefusal::Unsigned(who) => Abort::Unsigned(who),
        RoleRefusal::Unauthorized => Abort::Error(Error::Unauthorized),
        RoleRefusal::NoPendingAdmin => Abort::Error(Error::NoPendingAdmin),
    }
}

// ---- state ----

/// The asset token's storage.
#[derive(Debug)]
pub struct AssetTokenContract {
    /// Absent until the token is initialized.
    pub metadata: Option<AssetMetadata>,
    pub balances: Table<Address, i128>,
}

/// An [`AssetTokenContract`] as a map and sequences.
#[verifier::ext_equal]
pub struct AssetTokenView {
    pub metadata: Option<AssetMetadataView>,
    pub balances: Map<Address, i128>,
}

impl View for AssetTokenContract {
    type V = AssetTokenView;

    open spec fn view(&self) -> AssetTokenView {
        AssetTokenView {
            metadata: match self.metadata {
                Some(m) => Some(m@),
                None => None,
            },
            balances: self.balances@,
        }
    }
}

/// The balance of an address; 0 if there is none on file.
pub open spec fn balance_of(s: AssetTokenView, who: Address) -> i128 {
    if s.balances.contains_key(who) {
        s.balances[who]
    } else {
        0
    }
}

/// The administrator's role, as the metadata has it.
pub open spec fn role_of(s: AssetTokenView) -> AdminRole {
    match s.metadata {
        Some(m) => AdminRole { admin: Some(m.admin), pending: m.pending_admin },
        None => AdminRole::vacant(),
    }
}

/// Why `admin` may not act as the administrator.
pub open spec fn token_admin_refusal(
    s: AssetTokenView,
    signed: Seq<Address>,
    admin: Address,
) -> Option<Abort> {
    match admin_refusal(role_of(s), signed, admin) {
        Some(e) => Some(role_abort(e)),
        None => None,
    }
}

/// Why compliance stops `who`: its answer is the one at `i`, and is not there
/// yet or is no.
pub open spec fn approval_refusal(
    answers: Seq<bool>,
    i: int,
    compliance: Address,
    who: Address,
    e: Error,
) -> Option<Abort> {
    if i >= answers.len() {
        Some(Abort::NeedsApproval { compliance, who })
    } else if !answers[i] {
        Some(Abort::Error(e))
    } else {
        None
    }
}

/// Whether a text has at least one byte and at most `max`.
pub open spec fn text_fits(text: Seq<u8>, max: usize) -> bool {
    1 <= text.len() <= max
}

/// Whether the texts of the metadata have their lengths.
pub open spec fn texts_fit(m: AssetMetadataView) -> bool {
    &&& text_fits(m.name, MAX_NAME_LEN)
    &&& text_fits(m.symbol, MAX_SYMBOL_LEN)
    &&& text_fits(m.asset_type, MAX_ASSET_TYPE_LEN)
    &&& text_fits(m.asset_description, MAX_DESC_LEN)
}

/// Why a token is not initialized with the metadata `m`.
pub open spec fn initialize_refusal(
    s: AssetTokenView,
    signed: Seq<Address>,
    m: AssetMetadataView,
    answers: Seq<bool>,
) -> Option<Abort> {
    if s.metadata is Some {
        Some(Abort::Error(Error::AlreadyInitialized))
    } else if !signed.contains(m.admin) {
        Some(Abort::Unsigned(m.admin))
    } else if m.total_supply < 0 || m.valuation < 0 {
        Some(Abort::Error(Error::InvalidAmount))
    } else if !texts_fit(m) {
        Some(Abort::Error(Error::InvalidInput))
    } else {
        approval_refusal(answers, 0, m.compliance_contract, m.admin, Error::RecipientNotCompliant)
    }
}

/// Why a transfer is refused.
pub open spec fn transfer_refusal(
    s: AssetTokenView,
    signed: Seq<Address>,
    from: Address,
    to: Address,
    amount: i128,
    answers: Seq<bool>,
) -> Option<Abort> {
    if !signed.contains(from) {
        Some(Abort::Unsigned(from))
    } else if amount <= 0 {
        Some(Abort::Error(Error::InvalidAmount))
    } else if s.metadata is None {
        Some(Abort::Error(Error::NotInitialized))
    } else if s.metadata->0.paused {
        Some(Abort::Error(Error::Paused))
    } else {
        let compliance = s.metadata->0.compliance_contract;
        let sender = approval_refusal(answers, 0, compliance, from, Error::SenderNotCompliant);
        let recipient = approval_refusal(answers, 1, compliance, to, Error::RecipientNotCompliant);
        if sender is Some {
            sender
        } else if recipient is Some {
            recipient
        } else if balance_of(s, from) < amount {
            Some(Abort::Error(Error::InsufficientBalance))
        } else if from != to && overflows(balance_of(s, to) + amount) {
            Some(Abort::Error(Error::Overflow))
        } else {
            None
        }
    }
}

/// Why `amount` cannot be added to the supply and to the balance of `to`.
pub open spec fn room_refusal(s: AssetTokenView, to: Address, amount: i128) -> Option<Abort> {
    if overflows(s.metadata->0.total_supply + amount) || overflows(balance_of(s, to) + amount) {
        Some(Abort::Error(Error::Overflow))
    } else {
        None
    }
}

/// Why a mint is refused.
pub open spec fn mint_refusal(
    s: AssetTokenView,
    signed: Seq<Address>,
    admin: Address,
    to: Address,
    amount: i128,
    answers: Seq<bool>,
) -> Option<Abort> {
    if token_admin_refusal(s, signed, admin) is Some {
        token_admin_refusal(s, signed, admin)
    } else if amount <= 0 {
        Some(Abort::Error(Error::InvalidAmount))
    } else if s.metadata->0.paused {
        Some(Abort::Error(Error::Paused))
    } else {
        let unapproved = approval_refusal(
            answers,
            0,
            s.metadata->0.compliance_contract,
            to,
            Error::RecipientNotCompliant,
        );
        if unapproved is Some {
            unapproved
        } else {
            room_refusal(s, to, amount)
        }
    }
}

/// Why a list of mints is refused: what is wrong with the first bad one, those
/// before it being made.
pub open spec fn list_refusal(
    s: AssetTokenView,
    list: Seq<(Address, i128)>,
    answers: Seq<bool>,
) -> Option<Abort>
    decreases list.len(),
{
    if list.len() == 0 {
        None
    } else {
        let front = list.drop_last();
        let (to, amount) = list.last();
        let unapproved = approval_refusal(
            answers,
            front.len() as int,
            s.metadata->0.compliance_contract,
            to,
            Error::RecipientNotCompliant,
        );
        if list_refusal(s, front, answers) is Some {
            list_refusal(s, front, answers)
        } else if amount <= 0 {
            Some(Abort::Error(Error::InvalidAmount))
        } else if unapproved is Some {
            unapproved
        } else {
            room_refusal(s.batched(front), to, amount)
        }
    }
}

/// Why a batch of mints is refused.
pub open spec fn batch_refusal(
    s: AssetTokenView,
    signed: Seq<Address>,
    admin: Address,
    list: Seq<(Address, i128)>,
    answers: Seq<bool>,
) -> Option<Abort> {
    if token_admin_refusal(s, signed, admin) is Some {
        token_admin_refusal(s, signed, admin)
    } else if s.metadata->0.paused {
        Some(Abort::Error(Error::Paused))
    } else {
        list_refusal(s, list, answers)
    }
}

/// Why a burn is refused.
pub open spec fn burn_refusal(
    s: AssetTokenView,
    signed: Seq<Address>,
    from: Address,
    amount: i128,
    answers: Seq<bool>,
) -> Option<Abort> {
    if !signed.contains(from) {
        Some(Abort::Unsigned(from))
    } else if amount <= 0 {
        Some(Abort::Error(Error::InvalidAmount))
    } else if s.metadata is None {
        Some(Abort::Error(Error::NotInitialized))
    } else if s.metadata->0.paused {
        Some(Abort::Error(Error::Paused))
    } else {
        let unapproved = approval_refusal(
            answers,
            0,
            s.metadata->0.compliance_contract,
            from,
            Error::SenderNotCompliant,
        );
        if unapproved is Some {
            unapproved
        } else if balance_of(s, from) < amount {
            Some(Abort::Error(Error::InsufficientBalance))
        } else if overflows(s.metadata->0.total_supply - amount) {
            Some(Abort::Error(Error::Overflow))
        } else {
            None
        }
    }
}

/// Why a pause is refused.
pub open spec fn pause_refusal(
    s: AssetTokenView,
    signed: Seq<Address>,
    caller: Address,
) -> Option<Abort> {
    if !signed.contains(caller) {
        Some(Abort::Unsigned(caller))
    } else if s.metadata is None {
        Some(Abort::Error(Error::NotInitialized))
    } else if s.metadata->0.admin != caller && s.metadata->0.guardian != Some(caller) {
        Some(Abort::Error(Error::Unauthorized))
    } else {
        None
    }
}

/// Why a new valuation is refused.
pub open spec fn valuation_refusal(
    s: AssetTokenView,
    signed: Seq<Address>,
    admin: Address,
    new_valuation: i128,
) -> Option<Abort> {
    if token_admin_refusal(s, signed, admin) is Some {
        token_admin_refusal(s, signed, admin)
    } else if new_valuation < 0 {
        Some(Abort::Error(Error::InvalidAmount))
    } else {
        None
    }
}

/// Why another compliance contract is refused.
pub open spec fn compliance_refusal(
    s: AssetTokenView,
    signed: Seq<Address>,
    admin: Address,
    compliance: Address,
    answers: Seq<bool>,
) -> Option<Abort> {
    if token_admin_refusal(s, signed, admin) is Some {
        token_admin_refusal(s, signed, admin)
    } else {
        approval_refusal(answers, 0, compliance, admin, Error::InvalidCompliance)
    }
}

impl AssetTokenView {
    /// The token before it is initialized.
    pub open spec fn blank() -> AssetTokenView {
        AssetTokenView { metadata: None, balances: Map::empty() }
    }

    /// The token once initialized: the admin holds the whole supply.
    pub open spec fn initialized(self, m: AssetMetadataView) -> AssetTokenView {
        AssetTokenView {
            metadata: Some(m),
            balances: self.balances.insert(m.admin, m.total_supply),
        }
    }

    /// The token with other metadata.
    pub open spec fn with_metadata(self, m: AssetMetadataView) -> AssetTokenView {
        AssetTokenView { metadata: Some(m), ..self }
    }

    /// The token with another role.
    pub open spec fn with_role(self, role: AdminRole) -> AssetTokenView {
        self.with_metadata(
            AssetMetadataView {
                admin: role.admin->0,
                pending_admin: role.pending,
                ..self.metadata->0
            },
        )
    }

    /// The token once `amount` has moved. A transfer to oneself moves nothing.
    pub open spec fn moved(self, from: Address, to: Address, amount: i128) -> AssetTokenView {
        if from == to {
            self
        } else {
            AssetTokenView {
                balances: self.balances.insert(
                    from,
                    (balance_of(self, from) - amount) as i128,
                ).insert(to, (balance_of(self, to) + amount) as i128),
                ..self
            }
        }
    }

    /// The token once `amount` is minted to `to`.
    pub open spec fn minted(self, to: Address, amount: i128) -> AssetTokenView {
        let m = self.metadata->0;
        AssetTokenView {
            metadata: Some(
                AssetMetadataView { total_supply: (m.total_supply + amount) as i128, ..m },
            ),
            balances: self.balances.insert(to, (balance_of(self, to) + amount) as i128),
        }
    }

    /// The token once every mint of a list is made, one after the other.
    pub open spec fn batched(self, list: Seq<(Address, i128)>) -> AssetTokenView
        decreases list.len(),
    {
        if list.len() == 0 {
            self
        } else {
            self.batched(list.drop_last()).minted(list.last().0, list.last().1)
        }
    }

    /// The token once `amount` of `from` is burned.
    pub open spec fn burned(self, from: Address, amount: i128) -> AssetTokenView {
        let m = self.metadata->0;
        AssetTokenView {
            metadata: Some(
                AssetMetadataView { total_supply: (m.total_supply - amount) as i128, ..m },
            ),
            balances: self.balances.insert(from, (balance_of(self, from) - amount) as i128),
        }
    }
}

/// The sum of all balances.
pub open spec fn held(balances: Map<Address, i128>) -> int
    decreases balances.dom().len(),
    when balances.dom().finite()
{
    if balances.dom().len() == 0 {
        0
    } else {
        let a = balances.dom().choose();
        balances[a] + held(balances.remove(a))
    }
}

impl AssetTokenView {
    /// What holds of the token after every call: the balances are not negative
    /// and sum up to the supply, and the metadata is such as initialization
    /// lets through. Nobody holds anything before.
    pub open spec fn wf(self) -> bool {
        &&& self.balances.dom().finite()
        &&& forall|a: Address| #[trigger] self.balances.contains_key(a) ==> self.balances[a] >= 0
        &&& match self.metadata {
            Some(m) => {
                &&& m.total_supply == held(self.balances)
                &&& m.valuation >= 0
                &&& texts_fit(m)
            },
            None => self.balances.dom().len() == 0,
        }
    }
}

/// The events of a list of mints.
pub open spec fn mint_events(list: Seq<(Address, i128)>) -> Seq<Event> {
    Seq::new(list.len(), |i: int| Event::Mint { to: list[i].0, amount: list[i].1 })
}

/// The lifetime extensions of a list of mints.
pub open spec fn mint_extensions(list: Seq<(Address, i128)>) -> Seq<Extension<DataKey>> {
    Seq::new(list.len(), |i: int| Extension::Entry(DataKey::Balance(list[i].0)))
}

/// A bad mint decides about every list that begins with those up to it.
proof fn lemma_refusal_of_prefix(
    s: AssetTokenView,
    list: Seq<(Address, i128)>,
    answers: Seq<bool>,
    n: int,
)
    requires
        0 <= n <= list.len(),
        list_refusal(s, list.take(n), answers) is Some,
    ensures
        list_refusal(s, list, answers) == list_refusal(s, list.take(n), answers),
    decreases list.len(),
{
    if n == list.len() {
        assert(list.take(n) =~= list);
    } else {
        let front = list.drop_last();
        assert(front.take(n) =~= list.take(n));
        lemma_refusal_of_prefix(s, front, answers, n);
    }
}

/// Only the supply changes in the metadata by a list of mints.
proof fn lemma_batched_metadata(s: AssetTokenView, list: Seq<(Address, i128)>)
    requires
        s.metadata is Some,
    ensures
        s.batched(list).metadata is Some,
        s.batched(list).metadata->0 == (AssetMetadataView {
            total_supply: s.batched(list).metadata->0.total_supply,
            ..s.metadata->0
        }),
    decreases list.len(),
{
    if list.len() > 0 {
        lemma_batched_metadata(s, list.drop_last());
    }
}

/// What compliance says of `who`: its answer is the one at `i`.
fn ask_compliance(answers: &Vec<bool>, i: usize, compliance: Address, who: Address, e: Error) -> (r:
    Result<(), Abort>)
    ensures
        match r {
            Ok(_) => approval_refusal(answers@, i as int, compliance, who, e) is None,
            Err(a) => approval_refusal(answers@, i as int, compliance, who, e) == Some(a),
        },
{
    if i >= answers.len() {
        Err(Abort::NeedsApproval { compliance, who })
    } else if !answers[i] {
        Err(Abort::Error(e))
    } else {
        Ok(())
    }
}

/// Whether a text has at least `min_len` bytes and at most `max_len`.
fn check_str(s: &Vec<u8>, min_len: usize, max_len: usize) -> (r: bool)
    ensures
        r == (min_len <= s@.len() <= max_len),
{
    s.len() >= min_len && s.len() <= max_len
}

impl AssetTokenContract {
    /// The token before it is initialized.
    pub fn new() -> (r: AssetTokenContract)
        ensures
            r@ == AssetTokenView::blank(),
            r@.wf(),
    {
        let r = AssetTokenContract { metadata: None, balances: Table::new() };
        assert(r@ =~= AssetTokenView::blank());
        proof {
            law_blank_is_wf();
        }
        r
    }

    /// Behavior version.
    pub fn version() -> (r: u32)
        ensures
            r == VERSION,
            r == 1,
    {
        VERSION
    }

    /// Initializes the token and mints the whole supply to the admin, whom the
    /// compliance contract must allow. Possible once.
    pub fn initialize(
        &mut self,
        env: &mut Call,
        admin: Address,
        name: Vec<u8>,
        symbol: Vec<u8>,
        asset_type: Vec<u8>,
        total_supply: i128,
        decimals: u32,
        compliance_contract: Address,
        asset_description: Vec<u8>,
        valuation: i128,
        answers: &Vec<bool>,
    ) -> (r: Result<(), Abort>)
        ensures
            old(self)@.wf() ==> final(self)@.wf(),
            ({
                let m = AssetMetadataView {
                    name: name@,
                    symbol: symbol@,
                    asset_type: asset_type@,
                    total_supply,
                    decimals,
                    admin,
                    compliance_contract,
                    asset_description: asset_description@,
                    valuation,
                    paused: false,
                    guardian: None,
                    pending_admin: None,
                };
                let refusal = initialize_refusal(old(self)@, old(env).authorized@, m, answers@);
                match r {
                    Ok(_) => {
                        &&& refusal is None
                        &&& final(self)@ == old(self)@.initialized(m)
                        &&& final(env).leaves(
                            *old(env),
                            seq![
                                Event::Genesis { admin, total_supply },
                                Event::Mint { to: admin, amount: total_supply },
                            ],
                            seq![Extension::Entry(DataKey::Balance(admin)), Extension::Instance],
                        )
                    },
                    Err(a) => {
                        &&& refusal == Some(a)
                        &&& final(self)@ == old(self)@
                        &&& *final(env) == *old(env)
                    },
                }
            }),
    {
        if self.metadata.is_some() {
            return Err(Abort::Error(Error::AlreadyInitialized));
        }
        if !listed(&env.authorized, admin) {
            return Err(Abort::Unsigned(admin));
        }
        if total_supply < 0 || valuation < 0 {
            return Err(Abort::Error(Error::InvalidAmount));
        }
        if !check_str(&name, 1, MAX_NAME_LEN) || !check_str(&symbol, 1, MAX_SYMBOL_LEN)
            || !check_str(&asset_type, 1, MAX_ASSET_TYPE_LEN) || !check_str(
            &asset_description,
            1,
            MAX_DESC_LEN,
        ) {
            return Err(Abort::Error(Error::InvalidInput));
        }
        match ask_compliance(answers, 0, compliance_contract, admin, Error::RecipientNotCompliant) {
            Err(a) => return Err(a),
            Ok(_) => {},
        }
        let metadata = AssetMetadata {
            name,
            symbol,
            asset_type,
            total_supply,
            decimals,
            admin,
            compliance_contract,
            asset_description,
            valuation,
            paused: false,
            guardian: None,
            pending_admin: None,
        };
        let ghost m = metadata@;
        self.metadata = Some(metadata);
        self.set_balance(env, admin, total_supply);
        env.bump();
        env.publish(Event::Genesis { admin, total_supply });
        env.publish(Event::Mint { to: admin, amount: total_supply });
        proof {
            assert(env.events@ =~= old(env).events@ + seq![
                Event::Genesis { admin, total_supply },
                Event::Mint { to: admin, amount: total_supply },
            ]);
            assert(env.extended@ =~= old(env).extended@ + seq![
                Extension::Entry(DataKey::Balance(admin)),
                Extension::Instance,
            ]);
            assert(self@ =~= old(self)@.initialized(m));
            if old(self)@.wf() {
                law_initialize_keeps_wf(old(self)@, old(env).authorized@, m, answers@, admin);
            }
        }
        Ok(())
    }

    /// Moves `amount` from `from` to `to`. Both must be allowed, and the token
    /// must not be paused. The sender must authorize the call. A transfer to
    /// oneself moves nothing.
    pub fn transfer(
        &mut self,
        env: &mut Call,
        from: Address,
        to: Address,
        amount: i128,
        answers: &Vec<bool>,
    ) -> (r: Result<(), Abort>)
        ensures
            old(self)@.wf() ==> final(self)@.wf(),
            ({
                let refusal = transfer_refusal(
                    old(self)@,
                    old(env).authorized@,
                    from,
                    to,
                    amount,
                    answers@,
                );
                match r {
                    Ok(_) => {
                        let after = old(self)@.moved(from, to, amount);
                        &&& refusal is None
                        &&& final(self)@ == after
                        &&& final(env).leaves(
                            *old(env),
                            seq![
                                Event::Transfer {
                                    from,
                                    to,
                                    amount,
                                    from_balance: balance_of(after, from),
                                    to_balance: balance_of(after, to),
                                },
                            ],
                            if from == to {
                                seq![Extension::Instance]
                            } else {
                                seq![
                                    Extension::Entry(DataKey::Balance(from)),
                                    Extension::Entry(DataKey::Balance(to)),
                                    Extension::Instance,
                                ]
                            },
                        )
                    },
                    Err(a) => {
                        &&& refusal == Some(a)
                        &&& final(self)@ == old(self)@
                        &&& *final(env) == *old(env)
                    },
                }
            }),
    {
        if !listed(&env.authorized, from) {
            return Err(Abort::Unsigned(from));
        }
        if amount <= 0 {
            return Err(Abort::Error(Error::InvalidAmount));
        }
        let compliance = match self.compliance_to_ask() {
            Err(e) => return Err(Abort::Error(e)),
            Ok(compliance) => compliance,
        };
        match ask_compliance(answers, 0, compliance, from, Error::SenderNotCompliant) {
            Err(a) => return Err(a),
            Ok(_) => {},
        }
        match ask_compliance(answers, 1, compliance, to, Error::RecipientNotCompliant) {
            Err(a) => return Err(a),
            Ok(_) => {},
        }
        let from_bal = self.balance(from);
        if from_bal < amount {
            return Err(Abort::Error(Error::InsufficientBalance));
        }
        // Writing both balances of a transfer to oneself would undo the debit.
        if from == to {
            env.bump();
            env.publish(
                Event::Transfer {
                    from,
                    to,
                    amount,
                    from_balance: from_bal,
                    to_balance: from_bal,
                },
            );
            return Ok(());
        }
        let to_bal = self.balance(to);
        let new_from_bal: i128 = from_bal - amount;
        let new_to_bal = match to_bal.checked_add(amount) {
            None => return Err(Abort::Error(Error::Overflow)),
            Some(sum) => sum,
        };
        self.set_balance(env, from, new_from_bal);
        self.set_balance(env, to, new_to_bal);
        env.bump();
        let event = Event::Transfer {
            from,
            to,
            amount,
            from_balance: new_from_bal,
            to_balance: new_to_bal,
        };
        env.publish(event);
        proof {
            assert(env.events@ =~= old(env).events@ + seq![event]);
            assert(env.extended@ =~= old(env).extended@ + seq![
                Extension::Entry(DataKey::Balance(from)),
                Extension::Entry(DataKey::Balance(to)),
                Extension::Instance,
            ]);
            assert(self@ =~= old(self)@.moved(from, to, amount));
            if old(self)@.wf() {
                law_transfer_conserves(
                    old(self)@,
                    old(env).authorized@,
                    from,
                    to,
                    amount,
                    answers@,
                    to,
                );
            }
        }
        Ok(())
    }

    /// Mints new tokens to an address that is allowed. Admin only.
    pub fn mint(
        &mut self,
        env: &mut Call,
        admin: Address,
        to: Address,
        amount: i128,
        answers: &Vec<bool>,
    ) -> (r: Result<(), Abort>)
        ensures
            old(self)@.wf() ==> final(self)@.wf(),
            ({
                let refusal = mint_refusal(
                    old(self)@,
                    old(env).authorized@,
                    admin,
                    to,
                    amount,
                    answers@,
                );
                match r {
                    Ok(_) => {
                        &&& refusal is None
                        &&& final(self)@ == old(self)@.minted(to, amount)
                        &&& final(env).leaves(
                            *old(env),
                            seq![Event::Mint { to, amount }],
                            seq![Extension::Entry(DataKey::Balance(to)), Extension::Instance],
                        )
                    },
                    Err(a) => {
                        &&& refusal == Some(a)
                        &&& final(self)@ == old(self)@
                        &&& *final(env) == *old(env)
                    },
                }
            }),
    {
        match self.require_admin(&env.authorized, admin) {
            Err(a) => return Err(a),
            Ok(_) => {},
        }
        if amount <= 0 {
            return Err(Abort::Error(Error::InvalidAmount));
        }
        let compliance = match self.compliance_to_ask() {
            Err(e) => return Err(Abort::Error(e)),
            Ok(compliance) => compliance,
        };
        match ask_compliance(answers, 0, compliance, to, Error::RecipientNotCompliant) {
            Err(a) => return Err(a),
            Ok(_) => {},
        }
        let new_supply = match self.supply().checked_add(amount) {
            None => return Err(Abort::Error(Error::Overflow)),
            Some(sum) => sum,
        };
        let new_to_bal = match self.balance(to).checked_add(amount) {
            None => return Err(Abort::Error(Error::Overflow)),
            Some(sum) => sum,
        };
        self.set_balance(env, to, new_to_bal);
        self.set_supply(new_supply);
        env.bump();
        env.publish(Event::Mint { to, amount });
        proof {
            assert(env.events@ =~= old(env).events@ + seq![Event::Mint { to, amount }]);
            assert(env.extended@ =~= old(env).extended@ + seq![
                Extension::Entry(DataKey::Balance(to)),
                Extension::Instance,
            ]);
            assert(self@ =~= old(self)@.minted(to, amount));
            if old(self)@.wf() {
                law_mint_adds(old(self)@, to, amount, to);
            }
        }
        Ok(())
    }

    /// Mints to several addresses at once, each of which must be allowed. Admin
    /// only. If one mint is refused, none is made.
    pub fn mint_batch(
        &mut self,
        env: &mut Call,
        admin: Address,
        recipients: &Vec<(Address, i128)>,
        answers: &Vec<bool>,
    ) -> (r: Result<(), Abort>)
        ensures
            old(self)@.wf() ==> final(self)@.wf(),
            ({
                let refusal = batch_refusal(
                    old(self)@,
                    old(env).authorized@,
                    admin,
                    recipients@,
                    answers@,
                );
                match r {
                    Ok(_) => {
                        &&& refusal is None
                        &&& final(self)@ == old(self)@.batched(recipients@)
                        &&& final(env).leaves(
                            *old(env),
                            mint_events(recipients@),
                            mint_extensions(recipients@).push(Extension::Instance),
                        )
                    },
                    Err(a) => {
                        &&& refusal == Some(a)
                        &&& final(self)@ == old(self)@
                        &&& *final(env) == *old(env)
                    },
                }
            }),
    {
        match self.require_admin(&env.authorized, admin) {
            Err(a) => return Err(a),
            Ok(_) => {},
        }
        let compliance = match self.compliance_to_ask() {
            Err(e) => return Err(Abort::Error(e)),
            Ok(compliance) => compliance,
        };
        let ghost before = self@;
        let mut balances = self.copy_balances();
        let mut new_supply: i128 = self.supply();
        let mut i: usize = 0;
        assert(recipients@.take(0).len() == 0);
        while i < recipients.len()
            invariant
                i <= recipients@.len(),
                before == old(self)@,
                self@ == before,
                *env == *old(env),
                token_admin_refusal(before, old(env).authorized@, admin) is None,
                before.metadata is Some,
                !before.metadata->0.paused,
                compliance == before.metadata->0.compliance_contract,
                list_refusal(before, recipients@.take(i as int), answers@) is None,
                balances@ == before.batched(recipients@.take(i as int)).balances,
                new_supply == before.batched(
                    recipients@.take(i as int),
                ).metadata->0.total_supply,
            decreases recipients@.len() - i,
        {
            let (to, amount) = recipients[i];
            let ghost front = recipients@.take(i as int);
            let ghost list = recipients@.take(i + 1);
            proof {
                assert(list.drop_last() =~= front);
                assert(list.last() == (to, amount));
                if list_refusal(before, list, answers@) is Some {
                    lemma_refusal_of_prefix(before, recipients@, answers@, i + 1);
                }
            }
            if amount <= 0 {
                return Err(Abort::Error(Error::InvalidAmount));
            }
            match ask_compliance(answers, i, compliance, to, Error::RecipientNotCompliant) {
                Err(a) => return Err(a),
                Ok(_) => {},
            }
            new_supply =
            match new_supply.checked_add(amount) {
                None => return Err(Abort::Error(Error::Overflow)),
                Some(sum) => sum,
            };
            let to_bal: i128 = match balances.get(to) {
                Some(balance) => *balance,
                None => 0,
            };
            let new_to_bal = match to_bal.checked_add(amount) {
                None => return Err(Abort::Error(Error::Overflow)),
                Some(sum) => sum,
            };
            balances.set(to, new_to_bal);
            i += 1;
        }
        assert(recipients@.take(i as int) =~= recipients@);
        self.balances = balances;
        self.set_supply(new_supply);
        proof {
            lemma_batched_metadata(before, recipients@);
            assert(self@ =~= before.batched(recipients@));
            if old(self)@.wf() {
                law_batch_adds_up(before, recipients@, answers@, admin);
            }
            assert(env.events@ =~= old(env).events@ + mint_events(recipients@.take(0)));
            assert(env.extended@ =~= old(env).extended@ + mint_extensions(recipients@.take(0)));
        }
        let mut j: usize = 0;
        while j < recipients.len()
            invariant
                j <= recipients@.len(),
                env.leaves(
                    *old(env),
                    mint_events(recipients@.take(j as int)),
                    mint_extensions(recipients@.take(j as int)),
                ),
            decreases recipients@.len() - j,
        {
            let (to, amount) = recipients[j];
            env.extend(DataKey::Balance(to));
            env.publish(Event::Mint { to, amount });
            proof {
                let next = recipients@.take(j + 1);
                assert(env.events@ =~= old(env).events@ + mint_events(next));
                assert(env.extended@ =~= old(env).extended@ + mint_extensions(next));
            }
            j += 1;
        }
        assert(recipients@.take(j as int) =~= recipients@);
        env.bump();
        proof {
            assert(env.events@ =~= old(env).events@ + mint_events(recipients@));
            assert(env.extended@ =~= old(env).extended@ + mint_extensions(recipients@).push(
                Extension::Instance,
            ));
        }
        Ok(())
    }

    /// Burns `amount` of the caller's own tokens. The caller must authorize the
    /// call and be allowed.
    pub fn burn(&mut self, env: &mut Call, from: Address, amount: i128, answers: &Vec<bool>) -> (r:
        Result<(), Abort>)
        ensures
            old(self)@.wf() ==> final(self)@.wf(),
            ({
                let refusal = burn_refusal(
                    old(self)@,
                    old(env).authorized@,
                    from,
                    amount,
                    answers@,
                );
                match r {
                    Ok(_) => {
                        &&& refusal is None
                        &&& final(self)@ == old(self)@.burned(from, amount)
                        &&& final(env).leaves(
                            *old(env),
                            seq![Event::Burn { from, amount }],
                            seq![Extension::Entry(DataKey::Balance(from)), Extension::Instance],
                        )
                    },
                    Err(a) => {
                        &&& refusal == Some(a)
                        &&& final(self)@ == old(self)@
                        &&& *final(env) == *old(env)
                    },
                }
            }),
    {
        if !listed(&env.authorized, from) {
            return Err(Abort::Unsigned(from));
        }
        if amount <= 0 {
            return Err(Abort::Error(Error::InvalidAmount));
        }
        let compliance = match self.compliance_to_ask() {
            Err(e) => return Err(Abort::Error(e)),
            Ok(compliance) => compliance,
        };
        match ask_compliance(answers, 0, compliance, from, Error::SenderNotCompliant) {
            Err(a) => return Err(a),
            Ok(_) => {},
        }
        let from_bal = self.balance(from);
        if from_bal < amount {
            return Err(Abort::Error(Error::InsufficientBalance));
        }
        let new_supply = match self.supply().checked_sub(amount) {
            None => return Err(Abort::Error(Error::Overflow)),
            Some(rest) => rest,
        };
        let new_from_bal: i128 = from_bal - amount;
        self.set_balance(env, from, new_from_bal);
        self.set_supply(new_supply);
        env.bump();
        env.publish(Event::Burn { from, amount });
        proof {
            assert(env.events@ =~= old(env).events@ + seq![Event::Burn { from, amount }]);
            assert(env.extended@ =~= old(env).extended@ + seq![
                Extension::Entry(DataKey::Balance(from)),
                Extension::Instance,
            ]);
            assert(self@ =~= old(self)@.burned(from, amount));
            if old(self)@.wf() {
                law_burn_takes(
                    old(self)@,
                    old(env).authorized@,
                    from,
                    amount,
                    answers@,
                    from,
                );
            }
        }
        Ok(())
    }

    /// The total supply.
    pub fn total_supply(&self) -> (r: Result<i128, Abort>)
        ensures
            match r {
                Ok(supply) => self@.metadata matches Some(m) && supply == m.total_supply,
                Err(a) => self@.metadata is None && a == Abort::Error(Error::NotInitialized),
            },
    {
        match &self.metadata {
            Some(m) => Ok(m.total_supply),
            None => Err(Abort::Error(Error::NotInitialized)),
        }
    }

    /// Stops all transfers, mints and burns. The admin can, and so can the
    /// guardian, if there is one.
    pub fn pause(&mut self, env: &mut Call, caller: Address) -> (r: Result<(), Abort>)
        ensures
            old(self)@.wf() ==> final(self)@.wf(),
            match r {
                Ok(_) => {
                    &&& pause_refusal(old(self)@, old(env).authorized@, caller) is None
                    &&& final(self)@ == old(self)@.with_metadata(
                        (AssetMetadataView { paused: true, ..old(self)@.metadata->0 }),
                    )
                    &&& final(env).leaves(
                        *old(env),
                        seq![Event::Pause { caller }],
                        seq![Extension::Instance],
                    )
                },
                Err(a) => {
                    &&& pause_refusal(old(self)@, old(env).authorized@, caller) == Some(a)
                    &&& final(self)@ == old(self)@
                    &&& *final(env) == *old(env)
                },
            },
    {
        if !listed(&env.authorized, caller) {
            return Err(Abort::Unsigned(caller));
        }
        match &self.metadata {
            None => return Err(Abort::Error(Error::NotInitialized)),
            Some(m) => {
                let is_guardian = match m.guardian {
                    Some(guardian) => guardian == caller,
                    None => false,
                };
                if m.admin != caller && !is_guardian {
                    return Err(Abort::Error(Error::Unauthorized));
                }
            },
        }
        match &mut self.metadata {
            Some(m) => m.paused = true,
            None => {},
        }
        env.bump();
        env.publish(Event::Pause { caller });
        proof {
            if old(self)@.wf() {
                law_metadata_change_keeps_wf(old(self)@, self@.metadata->0);
            }
        }
        Ok(())
    }

    /// Lets transfers, mints and burns go on. Admin only: the guardian cannot.
    pub fn unpause(&mut self, env: &mut Call, admin: Address) -> (r: Result<(), Abort>)
        ensures
            old(self)@.wf() ==> final(self)@.wf(),
            match r {
                Ok(_) => {
                    &&& token_admin_refusal(old(self)@, old(env).authorized@, admin) is None
                    &&& final(self)@ == old(self)@.with_metadata(
                        (AssetMetadataView { paused: false, ..old(self)@.metadata->0 }),
                    )
                    &&& final(env).leaves(
                        *old(env),
                        seq![Event::Unpause { admin }],
                        seq![Extension::Instance],
                    )
                },
                Err(a) => {
                    &&& token_admin_refusal(old(self)@, old(env).authorized@, admin) == Some(a)
                    &&& final(self)@ == old(self)@
                    &&& *final(env) == *old(env)
                },
            },
    {
        match self.require_admin(&env.authorized, admin) {
            Err(a) => return Err(a),
            Ok(_) => {},
        }
        match &mut self.metadata {
            Some(m) => m.paused = false,
            None => {},
        }
        env.bump();
        env.publish(Event::Unpause { admin });
        proof {
            if old(self)@.wf() {
                law_metadata_change_keeps_wf(old(self)@, self@.metadata->0);
            }
        }
        Ok(())
    }

    /// Sets the guardian, or clears it with `None`. Admin only.
    pub fn set_guardian(
        &mut self,
        env: &mut Call,
        admin: Address,
        guardian: Option<Address>,
    ) -> (r: Result<(), Abort>)
        ensures
            old(self)@.wf() ==> final(self)@.wf(),
            match r {
                Ok(_) => {
                    &&& token_admin_refusal(old(self)@, old(env).authorized@, admin) is None
                    &&& final(self)@ == old(self)@.with_metadata(
                        (AssetMetadataView { guardian, ..old(self)@.metadata->0 }),
                    )
                    &&& final(env).leaves(
                        *old(env),
                        seq![Event::Guardian { guardian }],
                        seq![Extension::Instance],
                    )
                },
                Err(a) => {
                    &&& token_admin_refusal(old(self)@, old(env).authorized@, admin) == Some(a)
                    &&& final(self)@ == old(self)@
                    &&& *final(env) == *old(env)
                },
            },
    {
        match self.require_admin(&env.authorized, admin) {
            Err(a) => return Err(a),
            Ok(_) => {},
        }
        match &mut self.metadata {
            Some(m) => m.guardian = guardian,
            None => {},
        }
        env.bump();
        env.publish(Event::Guardian { guardian });
        proof {
            if old(self)@.wf() {
                law_metadata_change_keeps_wf(old(self)@, self@.metadata->0);
            }
        }
        Ok(())
    }

    /// The metadata.
    pub fn get_metadata(&self) -> (r: Result<AssetMetadata, Abort>)
        ensures
            match r {
                Ok(m) => self@.metadata == Some(m@),
                Err(a) => self@.metadata is None && a == Abort::Error(Error::NotInitialized),
            },
    {
        match &self.metadata {
            Some(m) => Ok(m.copy()),
            None => Err(Abort::Error(Error::NotInitialized)),
        }
    }

    /// Updates the valuation, in USD cents. Admin only.
    pub fn update_valuation(&mut self, env: &mut Call, admin: Address, new_valuation: i128) -> (r:
        Result<(), Abort>)
        ensures
            old(self)@.wf() ==> final(self)@.wf(),
            ({
                let refusal = valuation_refusal(
                    old(self)@,
                    old(env).authorized@,
                    admin,
                    new_valuation,
                );
                match r {
                    Ok(_) => {
                        &&& refusal is None
                        &&& final(self)@ == old(self)@.with_metadata(
                            (AssetMetadataView {
                                valuation: new_valuation,
                                ..old(self)@.metadata->0
                            }),
                        )
                        &&& final(env).leaves(
                            *old(env),
                            seq![Event::Valuation { valuation: new_valuation }],
                            seq![Extension::Instance],
                        )
                    },
                    Err(a) => {
                        &&& refusal == Some(a)
                        &&& final(self)@ == old(self)@
                        &&& *final(env) == *old(env)
                    },
                }
            }),
    {
        match self.require_admin(&env.authorized, admin) {
            Err(a) => return Err(a),
            Ok(_) => {},
        }
        if new_valuation < 0 {
            return Err(Abort::Error(Error::InvalidAmount));
        }
        match &mut self.metadata {
            Some(m) => m.valuation = new_valuation,
            None => {},
        }
        env.bump();
        env.publish(Event::Valuation { valuation: new_valuation });
        proof {
            if old(self)@.wf() {
                law_metadata_change_keeps_wf(old(self)@, self@.metadata->0);
            }
        }
        Ok(())
    }

    /// Points the token at another compliance contract, which must allow the
    /// admin. Admin only. Holders are not checked again: whoever the new
    /// contract does not allow keeps the balance.
    pub fn set_compliance(
        &mut self,
        env: &mut Call,
        admin: Address,
        compliance: Address,
        answers: &Vec<bool>,
    ) -> (r: Result<(), Abort>)
        ensures
            old(self)@.wf() ==> final(self)@.wf(),
            ({
                let refusal = compliance_refusal(
                    old(self)@,
                    old(env).authorized@,
                    admin,
                    compliance,
                    answers@,
                );
                match r {
                    Ok(_) => {
                        &&& refusal is None
                        &&& final(self)@ == old(self)@.with_metadata(
                            (AssetMetadataView {
                                compliance_contract: compliance,
                                ..old(self)@.metadata->0
                            }),
                        )
                        &&& final(env).leaves(
                            *old(env),
                            seq![Event::SetComp { compliance }],
                            seq![Extension::Instance],
                        )
                    },
                    Err(a) => {
                        &&& refusal == Some(a)
                        &&& final(self)@ == old(self)@
                        &&& *final(env) == *old(env)
                    },
                }
            }),
    {
        match self.require_admin(&env.authorized, admin) {
            Err(a) => return Err(a),
            Ok(_) => {},
        }
        match ask_compliance(answers, 0, compliance, admin, Error::InvalidCompliance) {
            Err(a) => return Err(a),
            Ok(_) => {},
        }
        match &mut self.metadata {
            Some(m) => m.compliance_contract = compliance,
            None => {},
        }
        env.bump();
        env.publish(Event::SetComp { compliance });
        proof {
            if old(self)@.wf() {
                law_metadata_change_keeps_wf(old(self)@, self@.metadata->0);
            }
        }
        Ok(())
    }

    /// Hands the admin's role over in one step. Admin only. The guardian stays;
    /// a proposal in flight is dropped, as it is not the new admin's.
    pub fn transfer_admin(&mut self, env: &mut Call, admin: Address, new_admin: Address) -> (r:
        Result<(), Abort>)
        ensures
            old(self)@.wf() ==> final(self)@.wf(),
            match r {
                Ok(_) => {
                    &&& token_admin_refusal(old(self)@, old(env).authorized@, admin) is None
                    &&& final(self)@ == old(self)@.with_metadata(
                        (AssetMetadataView {
                            admin: new_admin,
                            pending_admin: None,
                            ..old(self)@.metadata->0
                        }),
                    )
                    &&& final(env).leaves(
                        *old(env),
                        seq![Event::SetAdmin { old_admin: admin, new_admin }],
                        seq![Extension::Instance],
                    )
                },
                Err(a) => {
                    &&& token_admin_refusal(old(self)@, old(env).authorized@, admin) == Some(a)
                    &&& final(self)@ == old(self)@
                    &&& *final(env) == *old(env)
                },
            },
    {
        match self.require_admin(&env.authorized, admin) {
            Err(a) => return Err(a),
            Ok(_) => {},
        }
        match &mut self.metadata {
            Some(m) => {
                m.admin = new_admin;
                m.pending_admin = None;
            },
            None => {},
        }
        env.bump();
        env.publish(Event::SetAdmin { old_admin: admin, new_admin });
        proof {
            if old(self)@.wf() {
                law_metadata_change_keeps_wf(old(self)@, self@.metadata->0);
            }
        }
        Ok(())
    }

    /// Proposes a new admin. The role moves only once the successor accepts.
    pub fn propose_admin(&mut self, env: &mut Call, admin: Address, new_admin: Address) -> (r: Result<
        (),
        Abort,
    >)
        ensures
            old(self)@.wf() ==> final(self)@.wf(),
            match r {
                Ok(_) => {
                    &&& token_admin_refusal(old(self)@, old(env).authorized@, admin) is None
                    &&& final(self)@ == old(self)@.with_role(
                        role_of(old(self)@).proposing(new_admin),
                    )
                    &&& final(env).leaves(
                        *old(env),
                        seq![Event::Proposed { admin, new_admin }],
                        seq![Extension::Instance],
                    )
                },
                Err(a) => {
                    &&& token_admin_refusal(old(self)@, old(env).authorized@, admin) == Some(a)
                    &&& final(self)@ == old(self)@
                    &&& *final(env) == *old(env)
                },
            },
    {
        let mut role = self.role();
        match role.propose(&env.authorized, admin, new_admin) {
            Err(e) => Err(abort_of(e)),
            Ok(_) => {
                self.set_role(role);
                env.bump();
                env.publish(Event::Proposed { admin, new_admin });
                proof {
                    if old(self)@.wf() {
                        law_metadata_change_keeps_wf(old(self)@, self@.metadata->0);
                    }
                }
                Ok(())
            },
        }
    }

    /// Withdraws the pending admin proposal. Admin only.
    pub fn cancel_admin_proposal(&mut self, env: &mut Call, admin: Address) -> (r: Result<
        (),
        Abort,
    >)
        ensures
            old(self)@.wf() ==> final(self)@.wf(),
            match r {
                Ok(_) => {
                    &&& cancel_refusal(role_of(old(self)@), old(env).authorized@, admin) is None
                    &&& final(self)@ == old(self)@.with_role(
                        role_of(old(self)@).without_proposal(),
                    )
                    &&& final(env).leaves(
                        *old(env),
                        seq![Event::Cancelled { admin }],
                        seq![Extension::Instance],
                    )
                },
                Err(a) => {
                    &&& cancel_refusal(
                        role_of(old(self)@),
                        old(env).authorized@,
                        admin,
                    ) matches Some(e) && a == role_abort(e)
                    &&& final(self)@ == old(self)@
                    &&& *final(env) == *old(env)
                },
            },
    {
        let mut role = self.role();
        match role.cancel(&env.authorized, admin) {
            Err(e) => Err(abort_of(e)),
            Ok(_) => {
                self.set_role(role);
                env.bump();
                env.publish(Event::Cancelled { admin });
                proof {
                    if old(self)@.wf() {
                        law_metadata_change_keeps_wf(old(self)@, self@.metadata->0);
                    }
                }
                Ok(())
            },
        }
    }

    /// Accepts the pending admin proposal, which completes the handover. Only
    /// the proposed successor can. The guardian stays.
    pub fn accept_admin(&mut self, env: &mut Call, new_admin: Address) -> (r: Result<(), Abort>)
        ensures
            old(self)@.wf() ==> final(self)@.wf(),
            match r {
                Ok(_) => {
                    &&& accept_refusal(role_of(old(self)@), old(env).authorized@, new_admin) is None
                    &&& final(self)@ == old(self)@.with_role(
                        role_of(old(self)@).held_by(new_admin).without_proposal(),
                    )
                    &&& final(env).leaves(
                        *old(env),
                        seq![
                            Event::SetAdmin {
                                old_admin: old(self)@.metadata->0.admin,
                                new_admin,
                            },
                        ],
                        seq![Extension::Instance],
                    )
                },
                Err(a) => {
                    &&& accept_refusal(
                        role_of(old(self)@),
                        old(env).authorized@,
                        new_admin,
                    ) matches Some(e) && a == role_abort(e)
                    &&& final(self)@ == old(self)@
                    &&& *final(env) == *old(env)
                },
            },
    {
        let mut role = self.role();
        match role.accept(&env.authorized, new_admin) {
            Err(e) => Err(abort_of(e)),
            Ok(old_admin) => {
                self.set_role(role);
                env.bump();
                env.publish(Event::SetAdmin { old_admin, new_admin });
                proof {
                    if old(self)@.wf() {
                        law_metadata_change_keeps_wf(old(self)@, self@.metadata->0);
                    }
                }
                Ok(())
            },
        }
    }

    /// The address proposed as the next admin, if any.
    pub fn get_pending_admin(&self) -> (r: Option<Address>)
        ensures
            r == role_of(self@).pending,
    {
        match &self.metadata {
            Some(m) => m.pending_admin,
            None => None,
        }
    }

    /// The administrator's role, as the metadata has it.
    fn role(&self) -> (r: AdminRole)
        ensures
            r == role_of(self@),
    {
        match &self.metadata {
            Some(m) => AdminRole { admin: Some(m.admin), pending: m.pending_admin },
            None => AdminRole::new(),
        }
    }

    /// Writes the administrator's role into the metadata.
    fn set_role(&mut self, role: AdminRole)
        requires
            old(self)@.metadata is Some,
            role.admin is Some,
        ensures
            final(self)@ == old(self)@.with_role(role),
    {
        match &mut self.metadata {
            Some(m) => {
                if let Some(admin) = role.admin {
                    m.admin = admin;
                }
                m.pending_admin = role.pending;
            },
            None => {},
        }
    }

    /// Whether `admin` may act as the administrator.
    fn require_admin(&self, signed: &Vec<Address>, admin: Address) -> (r: Result<(), Abort>)
        ensures
            match r {
                Ok(_) => token_admin_refusal(self@, signed@, admin) is None,
                Err(a) => token_admin_refusal(self@, signed@, admin) == Some(a),
            },
    {
        match self.role().check_admin(signed, admin) {
            Ok(_) => Ok(()),
            Err(e) => Err(abort_of(e)),
        }
    }

    /// The compliance contract to ask, if the token is initialized and not
    /// paused.
    fn compliance_to_ask(&self) -> (r: Result<Address, Error>)
        ensures
            match r {
                Ok(compliance) => self@.metadata matches Some(m) && !m.paused && compliance
                    == m.compliance_contract,
                Err(e) => match self@.metadata {
                    Some(m) => m.paused && e == Error::Paused,
                    None => e == Error::NotInitialized,
                },
            },
    {
        match &self.metadata {
            None => Err(Error::NotInitialized),
            Some(m) => if m.paused {
                Err(Error::Paused)
            } else {
                Ok(m.compliance_contract)
            },
        }
    }

    /// The total supply of an initialized token.
    fn supply(&self) -> (r: i128)
        requires
            self@.metadata is Some,
        ensures
            r == self@.metadata->0.total_supply,
    {
        match &self.metadata {
            Some(m) => m.total_supply,
            None => 0,
        }
    }

    /// Sets the total supply of an initialized token.
    fn set_supply(&mut self, supply: i128)
        requires
            old(self)@.metadata is Some,
        ensures
            final(self)@ == old(self)@.with_metadata(
                (AssetMetadataView { total_supply: supply, ..old(self)@.metadata->0 }),
            ),
    {
        match &mut self.metadata {
            Some(m) => m.total_supply = supply,
            None => {},
        }
    }

    /// A copy of all balances.
    fn copy_balances(&self) -> (r: Table<Address, i128>)
        ensures
            r@ == self.balances@,
    {
        let mut entries: Vec<(Address, i128)> = Vec::new();
        let mut i: usize = 0;
        while i < self.balances.entries.len()
            invariant
                i <= self.balances.entries@.len(),
                entries@ == self.balances.entries@.take(i as int),
            decreases self.balances.entries@.len() - i,
        {
            entries.push(self.balances.entries[i]);
            assert(self.balances.entries@.take(i + 1) =~= self.balances.entries@.take(
                i as int,
            ).push(self.balances.entries@[i as int]));
            i += 1;
        }
        assert(entries@ =~= self.balances.entries@);
        Table { entries }
    }

    /// The balance of an address.
    pub fn balance(&self, id: Address) -> (r: i128)
        ensures
            r == balance_of(self@, id),
    {
        match self.balances.get(id) {
            Some(balance) => *balance,
            None => 0,
        }
    }

    /// Sets the balance of an address.
    fn set_balance(&mut self, env: &mut Call, id: Address, amount: i128)
        ensures
            final(self).metadata == old(self).metadata,
            final(self).balances@ == old(self).balances@.insert(id, amount),
            final(env).leaves(
                *old(env),
                seq![],
                seq![Extension::Entry(DataKey::Balance(id))],
            ),
    {
        self.balances.set(id, amount);
        env.extend(DataKey::Balance(id));
    }
}

} // verus!
