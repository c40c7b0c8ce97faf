//! # Registry
//!
//! The index of every tokenized asset. An issuer registers its asset-token
//! contract; the registry assigns increasing ids from 1 on and keeps issuer,
//! type, valuation and active status. It also reports the total value locked
//! (TVL) in active assets.
use vstd::prelude::*;
use vstd::string::is_ascii;

use crate::address::{listed, Address};
use crate::amounts::overflows;
use crate::index::{id_list, id_views, ids_under, lemma_id_views_insert};
use crate::invocation::{Extension, Invocation};
use crate::registry_laws::{
    law_blank_is_wf, law_deactivate_keeps_wf, law_initialize_keeps_wf, law_register_keeps_wf,
    law_role_change_keeps_wf,
};
use crate::roles::{
    accept_refusal, admin_refusal, cancel_refusal, init_refusal, AdminRole, RoleRefusal,
};
use crate::table::{Key, Table};

verus! {

/// Behavior version. Changes with the storage layout or with what callers see.
pub const VERSION: u32 = 1;

/// A registered asset.
#[derive(Debug, PartialEq, Eq)]
pub struct AssetEntry {
    pub id: u64,
    pub token_contract: Address,
    pub issuer: Address,
    pub name: Vec<u8>,
    pub asset_type: Vec<u8>,
    /// In USD cents.
    pub valuation: i128,
    /// Ledger sequence at registration.
    pub created_at: u32,
    pub active: bool,
}

/// An [`AssetEntry`] with its texts as byte sequences.
pub struct AssetEntryView {
    pub id: u64,
    pub token_contract: Address,
    pub issuer: Address,
    pub name: Seq<u8>,
    pub asset_type: Seq<u8>,
    pub valuation: i128,
    pub created_at: u32,
    pub active: bool,
}

impl View for AssetEntry {
    type V = AssetEntryView;

    open spec fn view(&self) -> AssetEntryView {
        AssetEntryView {
            id: self.id,
            token_contract: self.token_contract,
            issuer: self.issuer,
            name: self.name@,
            asset_type: self.asset_type@,
            valuation: self.valuation,
            created_at: self.created_at,
            active: self.active,
        }
    }
}

impl AssetEntry {
    /// A copy of the entry.
    pub fn copy(&self) -> (r: AssetEntry)
        ensures
            r@ == self@,
    {
        let name = self.name.clone();
        let asset_type = self.asset_type.clone();
        assert(name@ =~= self.name@);
        assert(asset_type@ =~= self.asset_type@);
        AssetEntry {
            id: self.id,
            token_contract: self.token_contract,
            issuer: self.issuer,
            name,
            asset_type,
            valuation: self.valuation,
            created_at: self.created_at,
            active: self.active,
        }
    }
}

/// The asset types that can be registered.
#[derive(Clone, Copy, Debug, PartialEq, Eq, Structural)]
pub enum AssetType {
    RealEstate,
    Invoice,
    Commodity,
    Bond,
    Equity,
    Fund,
}

impl Key for AssetType {
    fn same(self, other: Self) -> (r: bool) {
        self == other
    }
}

/// The bytes of an ASCII text.
pub open spec fn ascii(text: Seq<char>) -> Seq<u8> {
    Seq::new(text.len(), |i: int| text[i] as u8)
}

/// The name under which an asset type is registered.
pub open spec fn asset_type_name(t: AssetType) -> Seq<char> {
    match t {
        AssetType::RealEstate => "real_estate"@,
        AssetType::Invoice => "invoice"@,
        AssetType::Commodity => "commodity"@,
        AssetType::Bond => "bond"@,
        AssetType::Equity => "equity"@,
        AssetType::Fund => "fund"@,
    }
}

impl AssetType {
    /// The name under which the asset type is registered.
    pub fn name(self) -> (r: &'static str)
        ensures
            r@ == asset_type_name(self),
    {
        match self {
            AssetType::RealEstate => "real_estate",
            AssetType::Invoice => "invoice",
            AssetType::Commodity => "commodity",
            AssetType::Bond => "bond",
            AssetType::Equity => "equity",
            AssetType::Fund => "fund",
        }
    }
}

/// The asset type whose name is exactly `raw`, byte for byte.
pub open spec fn type_named(raw: Seq<u8>) -> Option<AssetType> {
    if raw == ascii(asset_type_name(AssetType::RealEstate)) {
        Some(AssetType::RealEstate)
    } else if raw == ascii(asset_type_name(AssetType::Invoice)) {
        Some(AssetType::Invoice)
    } else if raw == ascii(asset_type_name(AssetType::Commodity)) {
        Some(AssetType::Commodity)
    } else if raw == ascii(asset_type_name(AssetType::Bond)) {
        Some(AssetType::Bond)
    } else if raw == ascii(asset_type_name(AssetType::Equity)) {
        Some(AssetType::Equity)
    } else if raw == ascii(asset_type_name(AssetType::Fund)) {
        Some(AssetType::Fund)
    } else {
        None
    }
}

/// Whether `raw` is `text`, byte for byte.
fn is_text(raw: &Vec<u8>, text: &str) -> (r: bool)
    requires
        is_ascii(text),
    ensures
        r == (raw@ == ascii(text@)),
{
    let bytes = text.as_bytes();
    proof {
        vstd::string::is_ascii_spec_bytes(text);
        assert(bytes@ =~= ascii(text@));
    }
    if raw.len() != bytes.len() {
        return false;
    }
    let mut i: usize = 0;
    while i < bytes.len()
        invariant
            i <= bytes@.len(),
            raw@.len() == bytes@.len(),
            bytes@ == ascii(text@),
            forall|j: int| 0 <= j < i ==> raw@[j] == bytes@[j],
        decreases bytes@.len() - i,
    {
        if raw[i] != bytes[i] {
            return false;
        }
        i += 1;
    }
    assert(raw@ =~= bytes@);
    true
}

/// The asset type that `raw` names. The comparison is byte for byte: neither
/// case nor white space is ignored.
pub fn parse_asset_type(raw: &Vec<u8>) -> (r: Option<AssetType>)
    ensures
        r == type_named(raw@),
{
    proof {
        reveal_strlit("real_estate");
        reveal_strlit("invoice");
        reveal_strlit("commodity");
        reveal_strlit("bond");
        reveal_strlit("equity");
        reveal_strlit("fund");
    }
    if is_text(raw, "real_estate") {
        Some(AssetType::RealEstate)
    } else if is_text(raw, "invoice") {
        Some(AssetType::Invoice)
    } else if is_text(raw, "commodity") {
        Some(AssetType::Commodity)
    } else if is_text(raw, "bond") {
        Some(AssetType::Bond)
    } else if is_text(raw, "equity") {
        Some(AssetType::Equity)
    } else if is_text(raw, "fund") {
        Some(AssetType::Fund)
    } else {
        None
    }
}

/// Why a call is refused. Signalled to callers by its code.
#[derive(Clone, Copy, Debug, PartialEq, Eq, Structural)]
pub enum Error {
    AlreadyInitialized,
    NotInitialized,
    Unauthorized,
    AssetNotFound,
    InvalidValuation,
    Overflow,
    InvalidInput,
    /// There is no admin proposal to accept or to cancel.
    NoPendingAdmin,
}

/// The number that stands for an error in the contract interface.
pub open spec fn error_code(e: Error) -> u32 {
    match e {
        Error::AlreadyInitialized => 1,
        Error::NotInitialized => 2,
        Error::Unauthorized => 3,
        Error::AssetNotFound => 4,
        Error::InvalidValuation => 5,
        Error::Overflow => 6,
        Error::InvalidInput => 7,
        Error::NoPendingAdmin => 8,
    }
}

impl Error {
    /// The number that stands for the error in the contract interface.
    pub fn code(self) -> (r: u32)
        ensures
            r == error_code(self),
    {
        match self {
            Error::AlreadyInitialized => 1,
            Error::NotInitialized => 2,
            Error::Unauthorized => 3,
            Error::AssetNotFound => 4,
            Error::InvalidValuation => 5,
            Error::Overflow => 6,
            Error::InvalidInput => 7,
            Error::NoPendingAdmin => 8,
        }
    }
}

/// How a call ends without having done anything.
#[derive(Clone, Copy, Debug, PartialEq, Eq, Structural)]
pub enum Abort {
    Error(Error),
    /// The address has not authorized the call.
    Unsigned(Address),
}

/// A published event.
#[derive(Clone, Copy, Debug, PartialEq, Eq, Structural)]
pub enum Event {
    Init { admin: Address },
    Register { issuer: Address, id: u64 },
    Deactivate { asset_id: u64 },
    Proposed { admin: Address, new_admin: Address },
    Cancelled { admin: Address },
    SetAdmin { old_admin: Address, new_admin: Address },
}

/// The persistent storage entries whose lifetime is extended one by one.
#[derive(Clone, Copy, Debug, PartialEq, Eq, Structural)]
pub enum DataKey {
    Asset(u64),
    IssuerIndex(Address),
    TypeIndex(AssetType),
}

/// A call of the registry.
pub type Call = Invocation<Event, DataKey>;

/// The abort that a refusal by the administrator's role comes to.
pub open spec fn role_abort(e: RoleRefusal) -> Abort {
    match e {
        RoleRefusal::AlreadyInitialized => Abort::Error(Error::AlreadyInitialized),
        RoleRefusal::NotInitialized => Abort::Error(Error::NotInitialized),
        RoleRefusal::Unsigned(who) => Abort::Unsigned(who),
        RoleRefusal::Unauthorized => Abort::Error(Error::Unauthorized),
        RoleRefusal::NoPendingAdmin => Abort::Error(Error::NoPendingAdmin),
    }
}

fn abort_of(e: RoleRefusal) -> (r: Abort)
    ensures
        r == role_abort(e),
{
    match e {
        RoleRefusal::AlreadyInitialized => Abort::Error(Error::AlreadyInitialized),
        RoleRefusal::NotInitialized => Abort::Error(Error::NotInitialized),
        RoleRefusal::Unsigned(who) => Abort::Unsigned(who),
        RoleRefusal::Unauthorized => Abort::Error(Error::Unauthorized),
        RoleRefusal::NoPendingAdmin => Abort::Error(Error::NoPendingAdmin),
    }
}

/// The registry's storage.
#[derive(Debug)]
pub struct RegistryContract {
    pub role: AdminRole,
    /// The id that was assigned last; 0 before the first.
    pub counter: u64,
    /// How many assets are active.
    pub active_count: u64,
    /// The summed valuation of the active assets, in USD cents.
    pub total_valuation: i128,
    pub assets: Table<u64, AssetEntry>,
    /// The ids of each issuer, oldest first.
    pub by_issuer: Table<Address, Vec<u64>>,
    /// The ids of each asset type, oldest first.
    pub by_type: Table<AssetType, Vec<u64>>,
}

/// A [`RegistryContract`] as maps and sequences.
#[verifier::ext_equal]
pub struct RegistryView {
    pub role: AdminRole,
    pub counter: u64,
    pub active_count: u64,
    pub total_valuation: i128,
    pub assets: Map<u64, AssetEntryView>,
    pub by_issuer: Map<Address, Seq<u64>>,
    pub by_type: Map<AssetType, Seq<u64>>,
}

/// Each entry of a map by its view.
pub open spec fn entry_views(m: Map<u64, AssetEntry>) -> Map<u64, AssetEntryView> {
    m.map_values(|e: AssetEntry| e@)
}

impl View for RegistryContract {
    type V = RegistryView;

    open spec fn view(&self) -> RegistryView {
        RegistryView {
            role: self.role,
            counter: self.counter,
            active_count: self.active_count,
            total_valuation: self.total_valuation,
            assets: entry_views(self.assets@),
            by_issuer: id_views(self.by_issuer@),
            by_type: id_views(self.by_type@),
        }
    }
}

/// The entries of those of `ids` that are registered, in the order of `ids`.
pub open spec fn entries_of(assets: Map<u64, AssetEntryView>, ids: Seq<u64>) -> Seq<AssetEntryView>
    decreases ids.len(),
{
    if ids.len() == 0 {
        Seq::empty()
    } else {
        let rest = entries_of(assets, ids.drop_last());
        if assets.contains_key(ids.last()) {
            rest.push(assets[ids.last()])
        } else {
            rest
        }
    }
}

/// The lifetime extensions of those of `ids` that are registered.
pub open spec fn extensions_of(assets: Map<u64, AssetEntryView>, ids: Seq<u64>) -> Seq<
    Extension<DataKey>,
>
    decreases ids.len(),
{
    if ids.len() == 0 {
        Seq::empty()
    } else {
        let rest = extensions_of(assets, ids.drop_last());
        if assets.contains_key(ids.last()) {
            rest.push(Extension::Entry(DataKey::Asset(ids.last())))
        } else {
            rest
        }
    }
}

/// The extension of an index entry, if there is one.
pub open spec fn index_extension<K>(index: Map<K, Seq<u64>>, k: K, key: DataKey) -> Seq<
    Extension<DataKey>,
> {
    if index.contains_key(k) {
        seq![Extension::Entry(key)]
    } else {
        Seq::empty()
    }
}

/// The ids from `start` up to, but without, `end`.
pub open spec fn id_range(start: int, end: int) -> Seq<u64> {
    Seq::new(if start < end { (end - start) as nat } else { 0 }, |i: int| (start + i) as u64)
}

/// Where a page of at most `limit` ids from `start_id` begins: ids begin at 1.
pub open spec fn page_start(start_id: u64) -> int {
    if start_id == 0 {
        1
    } else {
        start_id as int
    }
}

/// Where a page of at most `limit` ids from `start_id` ends, with `counter`
/// ids assigned so far.
pub open spec fn page_end(start_id: u64, limit: u32, counter: u64) -> int {
    let wanted = page_start(start_id) + limit;
    if wanted < counter + 1 {
        wanted
    } else {
        counter + 1
    }
}

/// Why a registration is refused, the sum of valuations left aside.
pub open spec fn register_refusal(
    s: RegistryView,
    signed: Seq<Address>,
    issuer: Address,
    name: Seq<u8>,
    asset_type: Seq<u8>,
    valuation: i128,
) -> Option<Abort> {
    if s.role.admin is None {
        Some(Abort::Error(Error::NotInitialized))
    } else if !signed.contains(issuer) {
        Some(Abort::Unsigned(issuer))
    } else if valuation < 0 {
        Some(Abort::Error(Error::InvalidValuation))
    } else if name.len() == 0 || type_named(asset_type) is None {
        Some(Abort::Error(Error::InvalidInput))
    } else {
        None
    }
}

impl RegistryView {
    /// The registry before it is initialized.
    pub open spec fn blank() -> RegistryView {
        RegistryView {
            role: AdminRole::vacant(),
            counter: 0,
            active_count: 0,
            total_valuation: 0,
            assets: Map::empty(),
            by_issuer: Map::empty(),
            by_type: Map::empty(),
        }
    }

    /// The registry once initialized with `admin`.
    pub open spec fn initialized(self, admin: Address) -> RegistryView {
        RegistryView {
            role: self.role.held_by(admin),
            counter: 0,
            active_count: 0,
            total_valuation: 0,
            ..self
        }
    }

    /// The registry with another role.
    pub open spec fn with_role(self, role: AdminRole) -> RegistryView {
        RegistryView { role, ..self }
    }

    /// The registry once `entry`, of type `t`, is registered.
    pub open spec fn registered(self, entry: AssetEntryView, t: AssetType) -> RegistryView {
        RegistryView {
            counter: entry.id,
            active_count: (self.active_count + 1) as u64,
            total_valuation: (self.total_valuation + entry.valuation) as i128,
            assets: self.assets.insert(entry.id, entry),
            by_issuer: self.by_issuer.insert(
                entry.issuer,
                ids_under(self.by_issuer, entry.issuer).push(entry.id),
            ),
            by_type: self.by_type.insert(t, ids_under(self.by_type, t).push(entry.id)),
            ..self
        }
    }

    /// The registry once the active asset `id` is deactivated.
    pub open spec fn deactivated(self, id: u64) -> RegistryView {
        RegistryView {
            active_count: if self.active_count == 0 {
                0
            } else {
                (self.active_count - 1) as u64
            },
            total_valuation: (self.total_valuation - self.assets[id].valuation) as i128,
            assets: self.assets.insert(
                id,
                AssetEntryView { active: false, ..self.assets[id] },
            ),
            ..self
        }
    }
}

/// The summed valuation of the active assets among the ids up to `n`.
pub open spec fn active_value(assets: Map<u64, AssetEntryView>, n: nat) -> int
    decreases n,
{
    if n == 0 {
        0
    } else {
        active_value(assets, (n - 1) as nat) + if assets[n as u64].active {
            assets[n as u64].valuation as int
        } else {
            0
        }
    }
}

/// How many of the ids up to `n` belong to active assets.
pub open spec fn active_number(assets: Map<u64, AssetEntryView>, n: nat) -> nat
    decreases n,
{
    if n == 0 {
        0
    } else {
        active_number(assets, (n - 1) as nat) + if assets[n as u64].active {
            1nat
        } else {
            0
        }
    }
}

/// The ids up to `n` of the assets of an issuer, oldest first.
pub open spec fn ids_of_issuer(
    assets: Map<u64, AssetEntryView>,
    n: nat,
    issuer: Address,
) -> Seq<u64>
    decreases n,
{
    if n == 0 {
        Seq::empty()
    } else {
        let rest = ids_of_issuer(assets, (n - 1) as nat, issuer);
        if assets[n as u64].issuer == issuer {
            rest.push(n as u64)
        } else {
            rest
        }
    }
}

/// The ids up to `n` of the assets of an asset type, oldest first.
pub open spec fn ids_of_type(assets: Map<u64, AssetEntryView>, n: nat, t: AssetType) -> Seq<u64>
    decreases n,
{
    if n == 0 {
        Seq::empty()
    } else {
        let rest = ids_of_type(assets, (n - 1) as nat, t);
        if type_named(assets[n as u64].asset_type) == Some(t) {
            rest.push(n as u64)
        } else {
            rest
        }
    }
}

/// Whether an entry is one that registration lets through under `id`.
pub open spec fn valid_entry(entry: AssetEntryView, id: u64) -> bool {
    &&& entry.id == id
    &&& entry.valuation >= 0
    &&& entry.name.len() > 0
    &&& type_named(entry.asset_type) is Some
}

impl RegistryView {
    /// What holds of the registry after every call: the ids are those from 1
    /// to the counter, the running totals are the totals of the entries, and
    /// each index lists what it should.
    pub open spec fn wf(self) -> bool {
        &&& self.role.wf()
        &&& self.role.admin is None ==> self.counter == 0
        &&& forall|id: u64|
            #[trigger] self.assets.contains_key(id) <==> 1 <= id <= self.counter
        &&& forall|id: u64|
            1 <= id <= self.counter ==> valid_entry(#[trigger] self.assets[id], id)
        &&& self.active_count == active_number(self.assets, self.counter as nat)
        &&& self.total_valuation == active_value(self.assets, self.counter as nat)
        &&& forall|a: Address|
            #[trigger] ids_under(self.by_issuer, a) == ids_of_issuer(
                self.assets,
                self.counter as nat,
                a,
            )
        &&& forall|t: AssetType|
            #[trigger] ids_under(self.by_type, t) == ids_of_type(
                self.assets,
                self.counter as nat,
                t,
            )
    }
}

/// Why a deactivation is refused.
pub open spec fn deactivate_refusal(
    s: RegistryView,
    signed: Seq<Address>,
    admin: Address,
    id: u64,
) -> Option<Abort> {
    if admin_refusal(s.role, signed, admin) is Some {
        Some(role_abort(admin_refusal(s.role, signed, admin)->0))
    } else if !s.assets.contains_key(id) {
        Some(Abort::Error(Error::AssetNotFound))
    } else if s.assets[id].active && overflows(s.total_valuation - s.assets[id].valuation) {
        Some(Abort::Error(Error::Overflow))
    } else {
        None
    }
}

/// Filing one more entry files its view.
proof fn lemma_entry_views_insert(m: Map<u64, AssetEntry>, id: u64, e: AssetEntry)
    ensures
        entry_views(m.insert(id, e)) == entry_views(m).insert(id, e@),
{
    assert(entry_views(m.insert(id, e)) =~= entry_views(m).insert(id, e@));
}

/// The ids that a page of at most `limit` from `start_id` runs over, as its
/// first id and the id behind its last, with `counter` ids assigned so far.
pub fn page_bounds(start_id: u64, limit: u32, counter: u64) -> (r: (u64, u64))
    requires
        counter < u64::MAX,
    ensures
        r.0 == page_start(start_id),
        r.1 == page_end(start_id, limit, counter),
{
    let start: u64 = if start_id < 1 { 1 } else { start_id };
    let wanted: u64 = start.saturating_add(limit as u64);
    let end: u64 = if wanted < counter + 1 { wanted } else { counter + 1 };
    (start, end)
}

impl RegistryContract {
    /// The registry before it is initialized.
    pub fn new() -> (r: RegistryContract)
        ensures
            r@ == RegistryView::blank(),
            r@.wf(),
    {
        let r = RegistryContract {
            role: AdminRole::new(),
            counter: 0,
            active_count: 0,
            total_valuation: 0,
            assets: Table::new(),
            by_issuer: Table::new(),
            by_type: Table::new(),
        };
        assert(r@ =~= RegistryView::blank());
        proof {
            law_blank_is_wf();
        }
        r
    }

    /// Behavior version.
    pub fn version() -> (r: u32)
        ensures
            r == VERSION,
            r == 1,
    {
        VERSION
    }

    /// Initializes the registry with an admin. Possible once.
    pub fn initialize(&mut self, env: &mut Call, admin: Address) -> (r: Result<(), Abort>)
        ensures
            old(self)@.wf() ==> final(self)@.wf(),
            match r {
                Ok(_) => {
                    &&& init_refusal(old(self)@.role, old(env).authorized@, admin) is None
                    &&& final(self)@ == old(self)@.initialized(admin)
                    &&& final(env).leaves(
                        *old(env),
                        seq![Event::Init { admin }],
                        seq![Extension::Instance],
                    )
                },
                Err(a) => {
                    &&& init_refusal(old(self)@.role, old(env).authorized@, admin) matches Some(e)
                        && a == role_abort(e)
                    &&& final(self)@ == old(self)@
                    &&& *final(env) == *old(env)
                },
            },
    {
        match self.role.initialize(&env.authorized, admin) {
            Err(e) => Err(abort_of(e)),
            Ok(_) => {
                self.counter = 0;
                self.active_count = 0;
                self.total_valuation = 0;
                env.bump();
                env.publish(Event::Init { admin });
                proof {
                    if old(self)@.wf() {
                        law_initialize_keeps_wf(old(self)@, admin);
                    }
                }
                Ok(())
            },
        }
    }

    /// Registers an asset in the name of `issuer`, who must authorize the call.
    /// Returns the id assigned to it.
    pub fn register_asset(
        &mut self,
        env: &mut Call,
        issuer: Address,
        token_contract: Address,
        name: Vec<u8>,
        asset_type: Vec<u8>,
        valuation: i128,
    ) -> (r: Result<u64, Abort>)
        requires
            register_refusal(
                old(self)@,
                old(env).authorized@,
                issuer,
                name@,
                asset_type@,
                valuation,
            ) is None ==> old(self)@.counter < u64::MAX && old(self)@.active_count < u64::MAX,
        ensures
            old(self)@.wf() ==> final(self)@.wf(),
            ({
                let refusal = register_refusal(
                    old(self)@,
                    old(env).authorized@,
                    issuer,
                    name@,
                    asset_type@,
                    valuation,
                );
                match r {
                    Ok(id) => {
                        let t = type_named(asset_type@)->0;
                        &&& refusal is None
                        &&& !overflows(old(self)@.total_valuation + valuation)
                        &&& id == old(self)@.counter + 1
                        &&& final(self)@ == old(self)@.registered(
                            (AssetEntryView {
                                id,
                                token_contract,
                                issuer,
                                name: name@,
                                asset_type: asset_type@,
                                valuation,
                                created_at: old(env).sequence,
                                active: true,
                            }),
                            t,
                        )
                        &&& final(env).leaves(
                            *old(env),
                            seq![Event::Register { issuer, id }],
                            seq![
                                Extension::Entry(DataKey::Asset(id)),
                                Extension::Entry(DataKey::IssuerIndex(issuer)),
                                Extension::Entry(DataKey::TypeIndex(t)),
                                Extension::Instance,
                            ],
                        )
                    },
                    Err(a) => {
                        &&& match refusal {
                            Some(e) => a == e,
                            None => overflows(old(self)@.total_valuation + valuation) && a
                                == Abort::Error(Error::Overflow),
                        }
                        &&& final(self)@ == old(self)@
                        &&& *final(env) == *old(env)
                    },
                }
            }),
    {
        if self.role.admin.is_none() {
            return Err(Abort::Error(Error::NotInitialized));
        }
        if !listed(&env.authorized, issuer) {
            return Err(Abort::Unsigned(issuer));
        }
        if valuation < 0 {
            return Err(Abort::Error(Error::InvalidValuation));
        }
        if name.len() == 0 {
            return Err(Abort::Error(Error::InvalidInput));
        }
        let t = match parse_asset_type(&asset_type) {
            Some(t) => t,
            None => return Err(Abort::Error(Error::InvalidInput)),
        };
        let new_tvl = match self.total_valuation.checked_add(valuation) {
            Some(v) => v,
            None => return Err(Abort::Error(Error::Overflow)),
        };
        let ghost before = self@;
        let id: u64 = self.counter + 1;
        let entry = AssetEntry {
            id,
            token_contract,
            issuer,
            name,
            asset_type,
            valuation,
            created_at: env.sequence,
            active: true,
        };
        let mut issuer_ids = id_list(&self.by_issuer, issuer);
        issuer_ids.push(id);
        let mut type_ids = id_list(&self.by_type, t);
        type_ids.push(id);
        proof {
            lemma_entry_views_insert(self.assets@, id, entry);
            lemma_id_views_insert(self.by_issuer@, issuer, issuer_ids);
            lemma_id_views_insert(self.by_type@, t, type_ids);
        }
        self.assets.set(id, entry);
        env.extend(DataKey::Asset(id));
        self.counter = id;
        self.active_count = self.active_count + 1;
        self.by_issuer.set(issuer, issuer_ids);
        env.extend(DataKey::IssuerIndex(issuer));
        self.by_type.set(t, type_ids);
        env.extend(DataKey::TypeIndex(t));
        self.total_valuation = new_tvl;
        env.bump();
        env.publish(Event::Register { issuer, id });
        proof {
            assert(env.events@ =~= old(env).events@ + seq![Event::Register { issuer, id }]);
            assert(env.extended@ =~= old(env).extended@ + seq![
                Extension::Entry(DataKey::Asset(id)),
                Extension::Entry(DataKey::IssuerIndex(issuer)),
                Extension::Entry(DataKey::TypeIndex(t)),
                Extension::Instance,
            ]);
            assert(self@ =~= before.registered(entry@, t));
            if before.wf() {
                law_register_keeps_wf(before, entry@, t);
            }
        }
        Ok(id)
    }

    /// The asset with the given id.
    pub fn get_asset(&self, env: &mut Call, asset_id: u64) -> (r: Result<AssetEntry, Abort>)
        ensures
            match r {
                Ok(entry) => {
                    &&& self@.assets.contains_key(asset_id)
                    &&& entry@ == self@.assets[asset_id]
                    &&& final(env).leaves(
                        *old(env),
                        seq![],
                        seq![Extension::Entry(DataKey::Asset(asset_id))],
                    )
                },
                Err(a) => {
                    &&& !self@.assets.contains_key(asset_id)
                    &&& a == Abort::Error(Error::AssetNotFound)
                    &&& *final(env) == *old(env)
                },
            },
    {
        match self.assets.get(asset_id) {
            Some(entry) => {
                env.extend(DataKey::Asset(asset_id));
                Ok(entry.copy())
            },
            None => Err(Abort::Error(Error::AssetNotFound)),
        }
    }

    /// Appends the entry of `id` to `out` if it is registered.
    fn fetch_asset(&self, env: &mut Call, id: u64, out: &mut Vec<AssetEntry>)
        ensures
            self@.assets.contains_key(id) ==> {
                &&& final(out)@.map_values(|e: AssetEntry| e@) == old(out)@.map_values(
                    |e: AssetEntry| e@,
                ).push(self@.assets[id])
                &&& final(env).leaves(
                    *old(env),
                    seq![],
                    seq![Extension::Entry(DataKey::Asset(id))],
                )
            },
            !self@.assets.contains_key(id) ==> {
                &&& final(out)@ == old(out)@
                &&& *final(env) == *old(env)
            },
    {
        if let Some(entry) = self.assets.get(id) {
            env.extend(DataKey::Asset(id));
            out.push(entry.copy());
            assert(out@.map_values(|e: AssetEntry| e@) =~= old(out)@.map_values(
                |e: AssetEntry| e@,
            ).push(self@.assets[id]));
        }
    }

    /// The entries of those of `ids` that are registered, in the order of `ids`.
    fn fetch_assets(&self, env: &mut Call, ids: &Vec<u64>) -> (r: Vec<AssetEntry>)
        ensures
            r@.map_values(|e: AssetEntry| e@) == entries_of(self@.assets, ids@),
            final(env).leaves(*old(env), seq![], extensions_of(self@.assets, ids@)),
    {
        let mut out: Vec<AssetEntry> = Vec::new();
        let mut i: usize = 0;
        assert(out@.map_values(|e: AssetEntry| e@) =~= entries_of(self@.assets, ids@.take(0)));
        assert(env.extended@ =~= old(env).extended@ + extensions_of(self@.assets, ids@.take(0)));
        assert(env.events@ =~= old(env).events@ + Seq::<Event>::empty());
        while i < ids.len()
            invariant
                i <= ids@.len(),
                out@.map_values(|e: AssetEntry| e@) == entries_of(
                    self@.assets,
                    ids@.take(i as int),
                ),
                env.leaves(*old(env), seq![], extensions_of(self@.assets, ids@.take(i as int))),
            decreases ids@.len() - i,
        {
            self.fetch_asset(env, ids[i], &mut out);
            proof {
                let next = ids@.take(i + 1);
                assert(next.drop_last() =~= ids@.take(i as int));
                assert(next.last() == ids@[i as int]);
                assert(env.events@ =~= old(env).events@ + Seq::<Event>::empty());
                assert(env.extended@ =~= old(env).extended@ + extensions_of(self@.assets, next));
            }
            i += 1;
        }
        assert(ids@.take(i as int) =~= ids@);
        out
    }

    /// All assets of an issuer, oldest first, deactivated ones as well.
    pub fn get_assets_by_issuer(&self, env: &mut Call, issuer: Address) -> (r: Vec<AssetEntry>)
        ensures
            r@.map_values(|e: AssetEntry| e@) == entries_of(
                self@.assets,
                ids_under(self@.by_issuer, issuer),
            ),
            final(env).leaves(
                *old(env),
                seq![],
                index_extension(self@.by_issuer, issuer, DataKey::IssuerIndex(issuer))
                    + extensions_of(self@.assets, ids_under(self@.by_issuer, issuer)),
            ),
    {
        if self.by_issuer.has(issuer) {
            env.extend(DataKey::IssuerIndex(issuer));
        }
        let ids = id_list(&self.by_issuer, issuer);
        let r = self.fetch_assets(env, &ids);
        assert(env.events@ =~= old(env).events@ + Seq::<Event>::empty());
        assert(env.extended@ =~= old(env).extended@ + (index_extension(
            self@.by_issuer,
            issuer,
            DataKey::IssuerIndex(issuer),
        ) + extensions_of(self@.assets, ids_under(self@.by_issuer, issuer))));
        r
    }

    /// All assets of an asset type, oldest first, deactivated ones as well.
    /// None for a text that names no asset type.
    pub fn get_assets_by_type(&self, env: &mut Call, asset_type: &Vec<u8>) -> (r: Vec<AssetEntry>)
        ensures
            match type_named(asset_type@) {
                Some(t) => {
                    &&& r@.map_values(|e: AssetEntry| e@) == entries_of(
                        self@.assets,
                        ids_under(self@.by_type, t),
                    )
                    &&& final(env).leaves(
                        *old(env),
                        seq![],
                        index_extension(self@.by_type, t, DataKey::TypeIndex(t)) + extensions_of(
                            self@.assets,
                            ids_under(self@.by_type, t),
                        ),
                    )
                },
                None => r@.len() == 0 && *final(env) == *old(env),
            },
    {
        match parse_asset_type(asset_type) {
            None => Vec::new(),
            Some(t) => {
                if self.by_type.has(t) {
                    env.extend(DataKey::TypeIndex(t));
                }
                let ids = id_list(&self.by_type, t);
                let r = self.fetch_assets(env, &ids);
                assert(env.events@ =~= old(env).events@ + Seq::<Event>::empty());
                assert(env.extended@ =~= old(env).extended@ + (index_extension(
                    self@.by_type,
                    t,
                    DataKey::TypeIndex(t),
                ) + extensions_of(self@.assets, ids_under(self@.by_type, t))));
                r
            },
        }
    }

    /// A page of the registered assets: the ids from `start_id` on, at most
    /// `limit` of them, in order. Calling again with `start_id + limit` gives
    /// the next page.
    pub fn get_all_assets(&self, env: &mut Call, start_id: u64, limit: u32) -> (r: Vec<AssetEntry>)
        requires
            self@.counter < u64::MAX,
        ensures
            ({
                let ids = id_range(
                    page_start(start_id),
                    page_end(start_id, limit, self@.counter),
                );
                &&& r@.map_values(|e: AssetEntry| e@) == entries_of(self@.assets, ids)
                &&& final(env).leaves(*old(env), seq![], extensions_of(self@.assets, ids))
            }),
    {
        let (start, end) = page_bounds(start_id, limit, self.counter);
        let mut out: Vec<AssetEntry> = Vec::new();
        let mut id: u64 = start;
        proof {
            let none = id_range(start as int, start as int);
            assert(out@.map_values(|e: AssetEntry| e@) =~= entries_of(self@.assets, none));
            assert(env.extended@ =~= old(env).extended@ + extensions_of(self@.assets, none));
            assert(env.events@ =~= old(env).events@ + Seq::<Event>::empty());
        }
        while id < end
            invariant
                start <= id,
                start <= end ==> id <= end,
                start > end ==> id == start,
                out@.map_values(|e: AssetEntry| e@) == entries_of(
                    self@.assets,
                    id_range(start as int, id as int),
                ),
                env.leaves(
                    *old(env),
                    seq![],
                    extensions_of(self@.assets, id_range(start as int, id as int)),
                ),
            decreases end - id,
        {
            self.fetch_asset(env, id, &mut out);
            proof {
                let next = id_range(start as int, id + 1);
                assert(next.drop_last() =~= id_range(start as int, id as int));
                assert(next.last() == id);
                assert(env.events@ =~= old(env).events@ + Seq::<Event>::empty());
                assert(env.extended@ =~= old(env).extended@ + extensions_of(self@.assets, next));
            }
            id += 1;
        }
        assert(id_range(start as int, id as int) =~= id_range(start as int, end as int));
        out
    }

    /// Deactivates an asset, which takes it out of the TVL. Admin only. Does
    /// nothing, and publishes nothing, if the asset is already inactive.
    pub fn deactivate_asset(&mut self, env: &mut Call, admin: Address, asset_id: u64) -> (r: Result<
        (),
        Abort,
    >)
        ensures
            old(self)@.wf() ==> final(self)@.wf(),
            ({
                let refusal = deactivate_refusal(
                    old(self)@,
                    old(env).authorized@,
                    admin,
                    asset_id,
                );
                match r {
                    Ok(_) => {
                        &&& refusal is None
                        &&& if old(self)@.assets[asset_id].active {
                            &&& final(self)@ == old(self)@.deactivated(asset_id)
                            &&& final(env).leaves(
                                *old(env),
                                seq![Event::Deactivate { asset_id }],
                                seq![
                                    Extension::Entry(DataKey::Asset(asset_id)),
                                    Extension::Instance,
                                ],
                            )
                        } else {
                            &&& final(self)@ == old(self)@
                            &&& *final(env) == *old(env)
                        }
                    },
                    Err(a) => {
                        &&& refusal == Some(a)
                        &&& final(self)@ == old(self)@
                        &&& *final(env) == *old(env)
                    },
                }
            }),
    {
        match self.role.check_admin(&env.authorized, admin) {
            Err(e) => return Err(abort_of(e)),
            Ok(_) => {},
        }
        let mut entry = match self.assets.get(asset_id) {
            Some(entry) => entry.copy(),
            None => return Err(Abort::Error(Error::AssetNotFound)),
        };
        if !entry.active {
            return Ok(());
        }
        let new_tvl = match self.total_valuation.checked_sub(entry.valuation) {
            Some(v) => v,
            None => return Err(Abort::Error(Error::Overflow)),
        };
        entry.active = false;
        proof {
            lemma_entry_views_insert(self.assets@, asset_id, entry);
        }
        self.assets.set(asset_id, entry);
        env.extend(DataKey::Asset(asset_id));
        self.active_count = self.active_count.saturating_sub(1);
        self.total_valuation = new_tvl;
        env.bump();
        env.publish(Event::Deactivate { asset_id });
        proof {
            assert(env.events@ =~= old(env).events@ + seq![Event::Deactivate { asset_id }]);
            assert(env.extended@ =~= old(env).extended@ + seq![
                Extension::Entry(DataKey::Asset(asset_id)),
                Extension::Instance,
            ]);
            assert(self@ =~= old(self)@.deactivated(asset_id));
            if old(self)@.wf() {
                law_deactivate_keeps_wf(old(self)@, asset_id);
            }
        }
        Ok(())
    }

    /// The summed valuation of all active assets, in USD cents.
    pub fn total_value_locked(&self) -> (r: i128)
        ensures
            r == self@.total_valuation,
    {
        self.total_valuation
    }

    /// The number of registered assets, active or not.
    pub fn asset_count(&self) -> (r: u64)
        ensures
            r == self@.counter,
    {
        self.counter
    }

    /// The number of active assets.
    pub fn active_count(&self) -> (r: u64)
        ensures
            r == self@.active_count,
    {
        self.active_count
    }

    /// The admin.
    pub fn get_admin(&self) -> (r: Result<Address, Abort>)
        ensures
            match r {
                Ok(admin) => self@.role.admin == Some(admin),
                Err(a) => self@.role.admin is None && a == Abort::Error(Error::NotInitialized),
            },
    {
        match self.role.admin {
            Some(admin) => Ok(admin),
            None => Err(Abort::Error(Error::NotInitialized)),
        }
    }

    /// Proposes a new admin. The role moves only once the successor accepts.
    pub fn propose_admin(&mut self, env: &mut Call, admin: Address, new_admin: Address) -> (r: Result<
        (),
        Abort,
    >)
        ensures
            old(self)@.wf() ==> final(self)@.wf(),
            match r {
                Ok(_) => {
                    &&& admin_refusal(old(self)@.role, old(env).authorized@, admin) is None
                    &&& final(self)@ == old(self)@.with_role(old(self)@.role.proposing(new_admin))
                    &&& final(env).leaves(
                        *old(env),
                        seq![Event::Proposed { admin, new_admin }],
                        seq![Extension::Instance],
                    )
                },
                Err(a) => {
                    &&& admin_refusal(old(self)@.role, old(env).authorized@, admin) matches Some(e)
                        && a == role_abort(e)
                    &&& final(self)@ == old(self)@
                    &&& *final(env) == *old(env)
                },
            },
    {
        match self.role.propose(&env.authorized, admin, new_admin) {
            Err(e) => Err(abort_of(e)),
            Ok(_) => {
                env.bump();
                env.publish(Event::Proposed { admin, new_admin });
                proof {
                    if old(self)@.wf() {
                        law_role_change_keeps_wf(old(self)@, self.role);
                    }
                }
                Ok(())
            },
        }
    }

    /// Withdraws the pending admin proposal. Admin only.
    pub fn cancel_admin_proposal(&mut self, env: &mut Call, admin: Address) -> (r: Result<
        (),
        Abort,
    >)
        ensures
            old(self)@.wf() ==> final(self)@.wf(),
            match r {
                Ok(_) => {
                    &&& cancel_refusal(old(self)@.role, old(env).authorized@, admin) is None
                    &&& final(self)@ == old(self)@.with_role(old(self)@.role.without_proposal())
                    &&& final(env).leaves(
                        *old(env),
                        seq![Event::Cancelled { admin }],
                        seq![Extension::Instance],
                    )
                },
                Err(a) => {
                    &&& cancel_refusal(old(self)@.role, old(env).authorized@, admin) matches Some(e)
                        && a == role_abort(e)
                    &&& final(self)@ == old(self)@
                    &&& *final(env) == *old(env)
                },
            },
    {
        match self.role.cancel(&env.authorized, admin) {
            Err(e) => Err(abort_of(e)),
            Ok(_) => {
                env.bump();
                env.publish(Event::Cancelled { admin });
                proof {
                    if old(self)@.wf() {
                        law_role_change_keeps_wf(old(self)@, self.role);
                    }
                }
                Ok(())
            },
        }
    }

    /// Accepts the pending admin proposal, which completes the handover. Only
    /// the proposed successor can.
    pub fn accept_admin(&mut self, env: &mut Call, new_admin: Address) -> (r: Result<(), Abort>)
        ensures
            old(self)@.wf() ==> final(self)@.wf(),
            match r {
                Ok(_) => {
                    &&& accept_refusal(old(self)@.role, old(env).authorized@, new_admin) is None
                    &&& final(self)@ == old(self)@.with_role(
                        old(self)@.role.held_by(new_admin).without_proposal(),
                    )
                    &&& final(env).leaves(
                        *old(env),
                        seq![Event::SetAdmin { old_admin: old(self)@.role.admin->0, new_admin }],
                        seq![Extension::Instance],
                    )
                },
                Err(a) => {
                    &&& accept_refusal(
                        old(self)@.role,
                        old(env).authorized@,
                        new_admin,
                    ) matches Some(e) && a == role_abort(e)
                    &&& final(self)@ == old(self)@
                    &&& *final(env) == *old(env)
                },
            },
    {
        match self.role.accept(&env.authorized, new_admin) {
            Err(e) => Err(abort_of(e)),
            Ok(old_admin) => {
                env.bump();
                env.publish(Event::SetAdmin { old_admin, new_admin });
                proof {
                    if old(self)@.wf() {
                        law_role_change_keeps_wf(old(self)@, self.role);
                    }
                }
                Ok(())
            },
        }
    }

    /// The address proposed as the next admin, if any.
    pub fn get_pending_admin(&self) -> (r: Option<Address>)
        ensures
            r == self@.role.pending,
    {
        self.role.pending
    }
}

} // verus!
